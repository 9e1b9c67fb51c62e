//! The byte layer of the persistence format.
//!
//! Every persisted artifact of the crate is first flattened into a sequence
//! of 64-bit words; this module turns a word sequence into a length-prefixed
//! little-endian byte stream and back.  The round trip is exact, which is
//! what the object-level round-trip results build on.

use vstd::prelude::*;
use vstd::bytes::lemma_auto_spec_u64_to_from_le_bytes;
use vstd::bytes::spec_u64_from_le_bytes;
use vstd::bytes::spec_u64_to_le_bytes;
use vstd::bytes::u64_from_le_bytes;
use vstd::bytes::u64_to_le_bytes;
use vstd::slice::slice_subrange;

verus! {

/// The largest word count a stream may carry.
pub const WORD_COUNT_MAX: u64 = 0x1000_0000_0000_0000;

/// The little-endian bytes of each word, in order.
pub open spec fn words_bytes(ws: Seq<u64>) -> Seq<u8>
    decreases ws.len(),
{
    if ws.len() == 0 {
        Seq::empty()
    } else {
        spec_u64_to_le_bytes(ws[0]) + words_bytes(ws.skip(1))
    }
}

/// A word stream as bytes: the word count, then each word.
pub open spec fn encode_words(ws: Seq<u64>) -> Seq<u8> {
    spec_u64_to_le_bytes(ws.len() as u64) + words_bytes(ws)
}

/// Reads a byte stream back into its words; `None` on any length mismatch.
pub open spec fn decode_words(bs: Seq<u8>) -> Option<Seq<u64>> {
    if bs.len() < 8 {
        None
    } else {
        let n = spec_u64_from_le_bytes(bs.subrange(0, 8)) as int;
        if bs.len() == 8 + 8 * n {
            Some(
                Seq::new(
                    n as nat,
                    |i: int| spec_u64_from_le_bytes(bs.subrange(8 + 8 * i, 16 + 8 * i)),
                ),
            )
        } else {
            None
        }
    }
}

pub proof fn lemma_words_bytes_len(ws: Seq<u64>)
    ensures
        words_bytes(ws).len() == 8 * ws.len(),
    decreases ws.len(),
{
    lemma_auto_spec_u64_to_from_le_bytes();
    if ws.len() > 0 {
        lemma_words_bytes_len(ws.skip(1));
    }
}

/// Appending one word appends its eight bytes.
pub proof fn lemma_words_bytes_snoc(ws: Seq<u64>, w: u64)
    ensures
        words_bytes(ws + seq![w]) == words_bytes(ws) + spec_u64_to_le_bytes(w),
    decreases ws.len(),
{
    lemma_auto_spec_u64_to_from_le_bytes();
    let x = ws + seq![w];
    if ws.len() == 0 {
        assert(x =~= seq![w]);
        assert(x.skip(1) =~= Seq::<u64>::empty());
        assert(words_bytes(x) == spec_u64_to_le_bytes(x[0]) + words_bytes(x.skip(1)));
        assert(words_bytes(x) =~= words_bytes(ws) + spec_u64_to_le_bytes(w));
    } else {
        assert(x.skip(1) =~= ws.skip(1) + seq![w]);
        lemma_words_bytes_snoc(ws.skip(1), w);
        assert(x[0] == ws[0]);
        assert(words_bytes(x) == spec_u64_to_le_bytes(x[0]) + words_bytes(x.skip(1)));
        assert(words_bytes(ws) == spec_u64_to_le_bytes(ws[0]) + words_bytes(ws.skip(1)));
        assert(words_bytes(x.skip(1)) == words_bytes(ws.skip(1)) + spec_u64_to_le_bytes(w));
        assert(words_bytes(x) =~= words_bytes(ws) + spec_u64_to_le_bytes(w));
    }
}

/// The bytes of word `i` sit at offset `8 * i`.
pub proof fn lemma_words_bytes_index(ws: Seq<u64>, i: int)
    requires
        0 <= i < ws.len(),
    ensures
        words_bytes(ws).subrange(8 * i, 8 * i + 8) == spec_u64_to_le_bytes(ws[i]),
    decreases i,
{
    lemma_auto_spec_u64_to_from_le_bytes();
    lemma_words_bytes_len(ws.skip(1));
    if i == 0 {
        assert(words_bytes(ws).subrange(0, 8) =~= spec_u64_to_le_bytes(ws[0]));
    } else {
        lemma_words_bytes_index(ws.skip(1), i - 1);
        assert(words_bytes(ws).subrange(8 * i, 8 * i + 8) =~= words_bytes(ws.skip(1)).subrange(
            8 * (i - 1),
            8 * (i - 1) + 8,
        ));
    }
}

/// Decoding inverts encoding, exactly.
pub proof fn lemma_words_roundtrip(ws: Seq<u64>)
    requires
        ws.len() < WORD_COUNT_MAX,
    ensures
        decode_words(encode_words(ws)) == Some(ws),
{
    lemma_auto_spec_u64_to_from_le_bytes();
    lemma_words_bytes_len(ws);
    let bs = encode_words(ws);
    assert(bs.subrange(0, 8) =~= spec_u64_to_le_bytes(ws.len() as u64));
    let n = spec_u64_from_le_bytes(bs.subrange(0, 8)) as int;
    assert(n == ws.len());
    let decoded = Seq::new(
        n as nat,
        |i: int| spec_u64_from_le_bytes(bs.subrange(8 + 8 * i, 16 + 8 * i)),
    );
    assert forall|i: int| 0 <= i < n implies decoded[i] == ws[i] by {
        lemma_words_bytes_index(ws, i);
        assert(bs.subrange(8 + 8 * i, 16 + 8 * i) =~= words_bytes(ws).subrange(
            8 * i,
            8 * i + 8,
        ));
    }
    assert(decoded =~= ws);
}

/// The 64-bit radix wide values are split by.
pub const WORD_RADIX: u128 = 0x1_0000_0000_0000_0000;

/// The low word of a 128-bit value.
pub open spec fn u128_lo(x: u128) -> u64 {
    (x % WORD_RADIX) as u64
}

/// The high word of a 128-bit value.
pub open spec fn u128_hi(x: u128) -> u64 {
    (x / WORD_RADIX) as u64
}

/// A 128-bit value reassembled from its words.
pub open spec fn u128_of(lo: u64, hi: u64) -> u128 {
    (lo + hi * WORD_RADIX) as u128
}

/// Splitting a 128-bit value and reassembling it is the identity.
pub proof fn lemma_u128_split_join(x: u128)
    ensures
        u128_of(u128_lo(x), u128_hi(x)) == x,
        u128_lo(x) < WORD_RADIX,
        u128_hi(x) < WORD_RADIX,
{
    vstd::arithmetic::div_mod::lemma_fundamental_div_mod(x as int, WORD_RADIX as int);
    vstd::arithmetic::div_mod::lemma_mod_bound(x as int, WORD_RADIX as int);
    assert((x as int) / (WORD_RADIX as int) < WORD_RADIX as int) by (nonlinear_arith)
        requires
            x as int == (WORD_RADIX as int) * ((x as int) / (WORD_RADIX as int)) + (x as int) % (
            WORD_RADIX as int),
            0 <= (x as int) % (WORD_RADIX as int),
            x <= 0xFFFF_FFFF_FFFF_FFFF_FFFF_FFFF_FFFF_FFFFu128,
    ;
}

/// Splits a 128-bit value into its two words.
pub fn split_u128(x: u128) -> (r: (u64, u64))
    ensures
        r.0 == u128_lo(x),
        r.1 == u128_hi(x),
{
    proof {
        lemma_u128_split_join(x);
    }
    ((x % WORD_RADIX) as u64, (x / WORD_RADIX) as u64)
}

/// Reassembles a 128-bit value from its two words.
pub fn join_u128(lo: u64, hi: u64) -> (r: u128)
    ensures
        r == u128_of(lo, hi),
{
    (lo as u128) + (hi as u128) * WORD_RADIX
}

/// The magnitude of a signed 128-bit value.
pub open spec fn i128_mag(m: i128) -> u128 {
    if m < 0 {
        (-(m as int)) as u128
    } else {
        m as u128
    }
}

/// The three words of a signed 128-bit value: sign, then the magnitude's
/// words.
pub open spec fn i128_words(m: i128) -> Seq<u64> {
    seq![
        if m < 0 {
            1u64
        } else {
            0u64
        },
        u128_lo(i128_mag(m)),
        u128_hi(i128_mag(m)),
    ]
}

/// A signed 128-bit value reassembled from a sign word and two magnitude
/// words.
pub open spec fn i128_of(sign: u64, lo: u64, hi: u64) -> i128 {
    if sign == 0 {
        u128_of(lo, hi) as i128
    } else {
        (-(u128_of(lo, hi) as int)) as i128
    }
}

/// Whether a sign word and two magnitude words name a representable value.
pub open spec fn i128_words_ok(sign: u64, lo: u64, hi: u64) -> bool {
    &&& sign <= 1
    &&& u128_of(lo, hi) <= 0x8000_0000_0000_0000_0000_0000_0000_0000u128
    &&& (sign == 0 ==> u128_of(lo, hi) < 0x8000_0000_0000_0000_0000_0000_0000_0000u128)
}

/// Splitting a signed value into words and reassembling it is the identity.
pub proof fn lemma_i128_split_join(m: i128)
    ensures
        i128_words(m).len() == 3,
        i128_of(i128_words(m)[0], i128_words(m)[1], i128_words(m)[2]) == m,
        i128_words_ok(i128_words(m)[0], i128_words(m)[1], i128_words(m)[2]),
{
    lemma_u128_split_join(i128_mag(m));
}

/// Writes a signed value as its three words.
pub fn push_i128(out: &mut Vec<u64>, m: i128)
    ensures
        final(out)@ == old(out)@ + i128_words(m),
{
    let ghost prev = out@;
    let neg = m < 0;
    let mag: u128 = if m < 0 {
        if m == i128::MIN {
            0x8000_0000_0000_0000_0000_0000_0000_0000u128
        } else {
            (-m) as u128
        }
    } else {
        m as u128
    };
    proof {
        assert(mag == i128_mag(m));
    }
    let (lo, hi) = split_u128(mag);
    out.push(if neg {
        1
    } else {
        0
    });
    out.push(lo);
    out.push(hi);
    proof {
        assert(out@ =~= prev + i128_words(m));
    }
}

/// Writes a 128-bit value as its two words.
pub fn push_u128(out: &mut Vec<u64>, x: u128)
    ensures
        final(out)@ == old(out)@ + seq![u128_lo(x), u128_hi(x)],
{
    let ghost prev = out@;
    let (lo, hi) = split_u128(x);
    out.push(lo);
    out.push(hi);
    proof {
        assert(out@ =~= prev + seq![u128_lo(x), u128_hi(x)]);
    }
}

/// Reassembles a signed value from a sign word and two magnitude words.
pub fn read_i128(sign: u64, lo: u64, hi: u64) -> (r: Result<i128, ()>)
    ensures
        match r {
            Ok(m) => i128_words_ok(sign, lo, hi) && m == i128_of(sign, lo, hi),
            Err(()) => !i128_words_ok(sign, lo, hi),
        },
{
    if sign > 1 {
        return Err(());
    }
    let mag = join_u128(lo, hi);
    if sign == 0 {
        if mag >= 0x8000_0000_0000_0000_0000_0000_0000_0000u128 {
            return Err(());
        }
        Ok(mag as i128)
    } else {
        if mag > 0x8000_0000_0000_0000_0000_0000_0000_0000u128 {
            return Err(());
        }
        if mag == 0x8000_0000_0000_0000_0000_0000_0000_0000u128 {
            Ok(i128::MIN)
        } else {
            Ok(-(mag as i128))
        }
    }
}

/// Writes a word stream as its byte form.
pub fn encode_words_vec(ws: &Vec<u64>) -> (r: Vec<u8>)
    requires
        ws@.len() < WORD_COUNT_MAX,
    ensures
        r@ == encode_words(ws@),
{
    let mut out: Vec<u8> = u64_to_le_bytes(ws.len() as u64);
    let mut i: usize = 0;
    proof {
        assert(ws@.take(0) =~= Seq::<u64>::empty());
    }
    while i < ws.len()
        invariant
            i <= ws@.len() < WORD_COUNT_MAX,
            out@ == spec_u64_to_le_bytes(ws@.len() as u64) + words_bytes(ws@.take(i as int)),
        decreases ws@.len() - i,
    {
        let mut b = u64_to_le_bytes(ws[i]);
        out.append(&mut b);
        proof {
            lemma_words_bytes_snoc(ws@.take(i as int), ws@[i as int]);
            assert(ws@.take(i + 1) =~= ws@.take(i as int) + seq![ws@[i as int]]);
        }
        i = i + 1;
    }
    proof {
        assert(ws@.take(ws@.len() as int) =~= ws@);
    }
    out
}

/// Reads a byte stream back into its words; `None` on any length mismatch.
pub fn decode_words_vec(bs: &[u8]) -> (r: Option<Vec<u64>>)
    ensures
        match (r, decode_words(bs@)) {
            (Some(v), Some(s)) => v@ == s,
            (None, None) => true,
            _ => false,
        },
{
    if bs.len() < 8 {
        return None;
    }
    let n64 = u64_from_le_bytes(slice_subrange(bs, 0, 8));
    let len = bs.len();
    if (len - 8) % 8 != 0 {
        return None;
    }
    let count = (len - 8) / 8;
    if count as u64 != n64 {
        return None;
    }
    proof {
        vstd::arithmetic::div_mod::lemma_fundamental_div_mod((len - 8) as int, 8);
    }
    let ghost target = Seq::new(
        n64 as nat,
        |i: int| spec_u64_from_le_bytes(bs@.subrange(8 + 8 * i, 16 + 8 * i)),
    );
    let mut out: Vec<u64> = Vec::new();
    let mut i: usize = 0;
    while i < count
        invariant
            i <= count,
            8 + 8 * count == bs@.len(),
            bs@.len() <= usize::MAX,
            count == n64,
            target == Seq::new(
                n64 as nat,
                |j: int| spec_u64_from_le_bytes(bs@.subrange(8 + 8 * j, 16 + 8 * j)),
            ),
            out@ == target.take(i as int),
        decreases count - i,
    {
        let w = u64_from_le_bytes(slice_subrange(bs, 8 + 8 * i, 16 + 8 * i));
        out.push(w);
        proof {
            assert(target.take(i + 1) =~= target.take(i as int).push(target[i as int]));
        }
        i = i + 1;
    }
    proof {
        assert(target.take(count as int) =~= target);
        assert(decode_words(bs@) == Some(target));
    }
    Some(out)
}

} // verus!
