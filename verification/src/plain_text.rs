//! The plaintext value object: an encoded polynomial, represented by the
//! value it carries in each slot.
//!
//! An integer-scheme plaintext holds one unsigned residue per slot; a
//! fractional-scheme plaintext holds one fixed-point mantissa per slot
//! together with the scale that interprets it.  A plaintext encoded for a
//! given chain level carries that level's parameter identity; plaintexts
//! built from bare values are unbound until they meet a context.

use vstd::prelude::*;

use crate::codec::decode_words;
use crate::codec::decode_words_vec;
use crate::codec::encode_words;
use crate::codec::encode_words_vec;
use crate::codec::i128_of;
use crate::codec::i128_words;
use crate::codec::i128_words_ok;
use crate::codec::lemma_i128_split_join;
use crate::codec::lemma_words_roundtrip;
use crate::codec::push_i128;
use crate::codec::push_u128;
use crate::codec::read_i128;
use crate::codec::u128_hi;
use crate::codec::u128_lo;
use crate::codec::u128_of;
use crate::codec::lemma_u128_split_join;
use crate::context::Context;
use crate::context::ContextV;
use crate::context::ParmsId;
use crate::error::HeError;
use crate::error::OperationIssue;
use crate::memory_pool_handle::MemoryPoolHandle;

verus! {

/// Stream tag of a serialized plaintext.
pub const WKIND_PLAINTEXT: u64 = 2;

/// The largest fixed-point mantissa the fractional scheme works with:
/// `2^126 - 1`.
pub const MANT_LIMIT: i128 = 0x3FFF_FFFF_FFFF_FFFF_FFFF_FFFF_FFFF_FFFF;

/// The largest scale the fractional scheme works with: `2^124`.
pub const SCALE_LIMIT: u128 = 0x1000_0000_0000_0000_0000_0000_0000_0000;

/// The most slots a value object may hold.
pub const SLOTS_MAX: usize = 65536;

/// The slot contents of a plaintext or ciphertext: unsigned residues for the
/// integer scheme, signed fixed-point mantissas for the fractional scheme.
pub enum SlotData {
    /// Integer-scheme residues.
    Ints(Vec<u64>),
    /// Fractional-scheme fixed-point mantissas.
    Fixes(Vec<i128>),
}

/// The abstract slot contents.
pub enum SlotsV {
    /// Integer-scheme residues.
    Ints(Seq<u64>),
    /// Fractional-scheme fixed-point mantissas.
    Fixes(Seq<i128>),
}

impl View for SlotData {
    type V = SlotsV;

    open spec fn view(&self) -> SlotsV {
        match self {
            SlotData::Ints(v) => SlotsV::Ints(v@),
            SlotData::Fixes(v) => SlotsV::Fixes(v@),
        }
    }
}

impl SlotsV {
    /// The number of slots.
    pub open spec fn len(self) -> int {
        match self {
            SlotsV::Ints(s) => s.len() as int,
            SlotsV::Fixes(s) => s.len() as int,
        }
    }
}

/// Every residue lies below the plaintext modulus.
pub open spec fn ints_below(s: Seq<u64>, t: u64) -> bool {
    forall|i: int| 0 <= i < s.len() ==> #[trigger] s[i] < t
}

/// Every mantissa lies within the fixed-point working range.
pub open spec fn fixes_bounded(s: Seq<i128>) -> bool {
    forall|i: int| 0 <= i < s.len() ==> -MANT_LIMIT <= #[trigger] s[i] <= MANT_LIMIT
}

/// A residue sequence padded with zeros to `n` slots.
pub open spec fn pad_ints(s: Seq<u64>, n: int) -> Seq<u64> {
    Seq::new(
        n as nat,
        |i: int|
            if i < s.len() {
                s[i]
            } else {
                0u64
            },
    )
}

/// A mantissa sequence padded with zeros to `n` slots.
pub open spec fn pad_fixes(s: Seq<i128>, n: int) -> Seq<i128> {
    Seq::new(
        n as nat,
        |i: int|
            if i < s.len() {
                s[i]
            } else {
                0i128
            },
    )
}

/// The abstract value of a plaintext.
pub struct PlaintextV {
    /// The slot contents.
    pub data: SlotsV,
    /// Whether the plaintext is bound to a chain point.
    pub bound: bool,
    /// The parameter identity it is bound to (meaningful when bound).
    pub parms_id: ParmsId,
    /// The chain level it is bound to (meaningful when bound).
    pub level: usize,
    /// The fixed-point scale (zero for integer plaintexts).
    pub scale: u128,
}

impl PlaintextV {
    /// Structural well-formedness: what every constructor establishes.
    pub open spec fn wf(self) -> bool {
        &&& self.data.len() <= SLOTS_MAX as int
        &&& self.level < 64
        &&& match self.data {
            SlotsV::Ints(s) => self.scale == 0,
            SlotsV::Fixes(s) => {
                &&& fixes_bounded(s)
                &&& 1 <= self.scale <= SCALE_LIMIT
                &&& self.bound
            },
        }
    }

    /// Whether the plaintext's binding names a chain point of `ctx`.
    pub open spec fn ok_for(self, ctx: ContextV) -> bool {
        self.bound ==> {
            &&& (self.level as int) < ctx.levels as int
            &&& ctx.chain[self.level as int] == self.parms_id
        }
    }
}

/// Mutable, pool-scoped container for encoded data.
pub struct Plaintext {
    /// The slot contents.
    pub data: SlotData,
    /// Whether the plaintext is bound to a chain point.
    pub bound: bool,
    /// The parameter identity it is bound to (meaningful when bound).
    pub parms_id: ParmsId,
    /// The chain level it is bound to (meaningful when bound).
    pub level: usize,
    /// The fixed-point scale (zero for integer plaintexts).
    pub scale: u128,
    /// The pool the plaintext allocates from.
    pub pool: MemoryPoolHandle,
}

impl View for Plaintext {
    type V = PlaintextV;

    open spec fn view(&self) -> PlaintextV {
        PlaintextV {
            data: self.data@,
            bound: self.bound,
            parms_id: self.parms_id,
            level: self.level,
            scale: self.scale,
        }
    }
}

/// Why a plain slice of values could not become a plaintext, or its values
/// could not be read back.
#[derive(Clone, Copy, Debug, PartialEq, Eq, Structural)]
pub enum PlainTextError {
    /// The value list is too long to hold.
    Creation,
    /// The plaintext does not carry integer coefficients.
    GetCoeff,
    /// A coefficient index lies outside the plaintext.
    GetCoeffCount,
}

/// The all-unbound identity: what a freshly created plaintext carries.
pub open spec fn empty_plaintext() -> PlaintextV {
    PlaintextV {
        data: SlotsV::Ints(Seq::empty()),
        bound: false,
        parms_id: (ParmsId { w0: 0, w1: 0, w2: 0, w3: 0 }),
        level: 0,
        scale: 0,
    }
}

impl Plaintext {
    /// Creates an empty plaintext in the thread-local memory pool.
    pub fn create() -> (r: Result<Plaintext, HeError>)
        ensures
            match r {
                Ok(p) => p@ == empty_plaintext() && p@.wf(),
                Err(_) => false,
            },
    {
        let pool = MemoryPoolHandle::to_thread_local_pool()?;
        Ok(Self::fresh(pool))
    }

    /// Creates an empty plaintext in the given memory pool.
    pub fn create_in_pool(memory_pool: MemoryPoolHandle) -> (r: Result<Plaintext, HeError>)
        ensures
            match r {
                Ok(p) => p@ == empty_plaintext() && p@.wf(),
                Err(_) => false,
            },
    {
        Ok(Self::fresh(memory_pool))
    }

    /// Creates a constant plaintext (a polynomial of degree zero) in the
    /// thread-local memory pool.
    pub fn create_constant(value: u64) -> (r: Result<Plaintext, HeError>)
        ensures
            match r {
                Ok(p) => {
                    &&& p@ == (PlaintextV {
                        data: SlotsV::Ints(seq![value]),
                        ..empty_plaintext()
                    })
                    &&& p@.wf()
                },
                Err(_) => false,
            },
    {
        let mut p = Self::fresh(MemoryPoolHandle::to_thread_local_pool()?);
        let mut v: Vec<u64> = Vec::new();
        v.push(value);
        p.data = SlotData::Ints(v);
        proof {
            assert(p@.data->Ints_0 =~= seq![value]);
        }
        Ok(p)
    }

    /// Creates an empty plaintext in the pool of another plaintext.
    pub(crate) fn create_in_pool_of_plain_text(other: &Plaintext) -> (r: Result<
        Plaintext,
        HeError,
    >)
        ensures
            match r {
                Ok(p) => p@ == empty_plaintext() && p@.wf(),
                Err(_) => false,
            },
    {
        Ok(Self::fresh(other.pool))
    }

    /// An empty plaintext holding the given pool.
    fn fresh(pool: MemoryPoolHandle) -> (r: Plaintext)
        ensures
            r@ == empty_plaintext(),
            r@.wf(),
            r.pool == pool,
    {
        let p = Plaintext {
            data: SlotData::Ints(Vec::new()),
            bound: false,
            parms_id: ParmsId { w0: 0, w1: 0, w2: 0, w3: 0 },
            level: 0,
            scale: 0,
            pool,
        };
        proof {
            assert(p@.data->Ints_0 =~= Seq::<u64>::empty());
        }
        p
    }

    /// The coefficient at `index`.
    pub fn coeff_at(&self, index: usize) -> (r: Result<u64, HeError>)
        ensures
            match r {
                Ok(v) => {
                    &&& self@.data is Ints
                    &&& index < self@.data.len()
                    &&& v == self@.data->Ints_0[index as int]
                },
                Err(e) => {
                    ||| (!(self@.data is Ints) && e == HeError::Operation(
                        OperationIssue::SchemeMismatch,
                    ))
                    ||| (self@.data is Ints && index >= self@.data.len() && e
                        == HeError::Operation(OperationIssue::ValueOutOfRange))
                },
            },
    {
        match &self.data {
            SlotData::Ints(v) => {
                if index < v.len() {
                    Ok(v[index])
                } else {
                    Err(HeError::Operation(OperationIssue::ValueOutOfRange))
                }
            },
            SlotData::Fixes(_) => Err(HeError::Operation(OperationIssue::SchemeMismatch)),
        }
    }

    /// The number of coefficients.
    pub fn coeffs_count(&self) -> (r: Result<usize, HeError>)
        ensures
            match r {
                Ok(n) => n == self@.data.len(),
                Err(_) => false,
            },
    {
        match &self.data {
            SlotData::Ints(v) => Ok(v.len()),
            SlotData::Fixes(v) => Ok(v.len()),
        }
    }

    /// Overwrites the plaintext with a constant.
    pub fn make_constant(&mut self, value: u64) -> (r: Result<(), HeError>)
        ensures
            match r {
                Ok(()) => {
                    &&& final(self)@ == (PlaintextV {
                        data: SlotsV::Ints(seq![value]),
                        ..empty_plaintext()
                    })
                    &&& final(self)@.wf()
                },
                Err(_) => false,
            },
    {
        let mut v: Vec<u64> = Vec::new();
        v.push(value);
        self.data = SlotData::Ints(v);
        self.bound = false;
        self.parms_id = ParmsId { w0: 0, w1: 0, w2: 0, w3: 0 };
        self.level = 0;
        self.scale = 0;
        proof {
            assert(self@.data->Ints_0 =~= seq![value]);
        }
        Ok(())
    }

    /// The fixed-point scale the plaintext was encoded at.
    pub fn scale(&self) -> (r: u128)
        ensures
            r == self@.scale,
    {
        self.scale
    }

    /// Direct access to the underlying slot storage.
    pub fn ptr(&self) -> (r: &SlotData)
        ensures
            r@ == self@.data,
    {
        &self.data
    }

    /// Builds a plaintext directly from integer coefficients.
    pub fn from_coeffs(values: &[u64]) -> (r: Result<Plaintext, PlainTextError>)
        ensures
            match r {
                Ok(p) => {
                    &&& values@.len() <= SLOTS_MAX as int
                    &&& p@ == (PlaintextV {
                        data: SlotsV::Ints(values@),
                        ..empty_plaintext()
                    })
                    &&& p@.wf()
                },
                Err(e) => values@.len() > SLOTS_MAX as int && e == PlainTextError::Creation,
            },
    {
        if values.len() > SLOTS_MAX {
            return Err(PlainTextError::Creation);
        }
        let mut v: Vec<u64> = Vec::new();
        let mut i: usize = 0;
        while i < values.len()
            invariant
                i <= values@.len(),
                v@ == values@.take(i as int),
            decreases values@.len() - i,
        {
            v.push(values[i]);
            proof {
                assert(values@.take(i + 1) =~= values@.take(i as int).push(values@[i as int]));
            }
            i = i + 1;
        }
        proof {
            assert(values@.take(values@.len() as int) =~= values@);
        }
        let mut p = Self::fresh(MemoryPoolHandle { thread_local: true });
        p.data = SlotData::Ints(v);
        Ok(p)
    }

    /// The integer coefficients, copied out.
    pub fn coeffs_vec(&self) -> (r: Result<Vec<u64>, PlainTextError>)
        ensures
            match r {
                Ok(v) => self@.data is Ints && v@ == self@.data->Ints_0,
                Err(e) => !(self@.data is Ints) && e == PlainTextError::GetCoeff,
            },
    {
        match &self.data {
            SlotData::Ints(v) => Ok(crate::params::clone_u64_vec(v)),
            SlotData::Fixes(_) => Err(PlainTextError::GetCoeff),
        }
    }

    /// A deep copy of the plaintext.
    pub fn clone(&self) -> (r: Result<Plaintext, HeError>)
        ensures
            match r {
                Ok(p) => p@ == self@,
                Err(_) => false,
            },
    {
        Ok(
            Plaintext {
                data: clone_slot_data(&self.data),
                bound: self.bound,
                parms_id: self.parms_id,
                level: self.level,
                scale: self.scale,
                pool: self.pool,
            },
        )
    }

    /// Writes the plaintext as a byte stream.
    pub fn save(&self) -> (r: Result<Vec<u8>, HeError>)
        requires
            self@.wf(),
        ensures
            match r {
                Ok(bytes) => bytes@ == encode_words(plaintext_words(self@)),
                Err(_) => false,
            },
    {
        let mut ws: Vec<u64> = Vec::new();
        ws.push(WKIND_PLAINTEXT);
        ws.push(if self.bound {
            1
        } else {
            0
        });
        ws.push(self.parms_id.w0);
        ws.push(self.parms_id.w1);
        ws.push(self.parms_id.w2);
        ws.push(self.parms_id.w3);
        ws.push(self.level as u64);
        push_u128(&mut ws, self.scale);
        push_slot_data(&mut ws, &self.data);
        proof {
            assert(ws@ =~= plaintext_words(self@));
            lemma_slots_words_len(self@.data);
        }
        Ok(encode_words_vec(&ws))
    }

    /// Reads a plaintext back from a byte stream, bound to a context: a
    /// plaintext carrying a parameter identity must name a chain point of
    /// that context.
    pub fn load(context: &Context, bytes: &[u8]) -> (r: Result<Plaintext, HeError>)
        requires
            context@.wf(),
        ensures
            match r {
                Ok(p) => {
                    &&& parse_plaintext(bytes@) == Some(p@)
                    &&& p@.wf()
                    &&& p@.ok_for(context@)
                },
                Err(e) => {
                    &&& e == HeError::Serialization
                    &&& match parse_plaintext(bytes@) {
                        None => true,
                        Some(v) => !v.ok_for(context@),
                    }
                },
            },
    {
        let pool = MemoryPoolHandle::to_thread_local_pool()?;
        Plaintext::load_in_pool(context, pool, bytes)
    }

    /// Reads a plaintext back from a byte stream into the given pool.
    pub fn load_in_pool(context: &Context, pool_handle: MemoryPoolHandle, bytes: &[u8]) -> (r:
        Result<Plaintext, HeError>)
        requires
            context@.wf(),
        ensures
            match r {
                Ok(p) => {
                    &&& parse_plaintext(bytes@) == Some(p@)
                    &&& p@.wf()
                    &&& p@.ok_for(context@)
                },
                Err(e) => {
                    &&& e == HeError::Serialization
                    &&& match parse_plaintext(bytes@) {
                        None => true,
                        Some(v) => !v.ok_for(context@),
                    }
                },
            },
    {
        let ws = match decode_words_vec(bytes) {
            None => {
                return Err(HeError::Serialization);
            },
            Some(ws) => ws,
        };
        let v = match read_plaintext_words(&ws) {
            None => {
                return Err(HeError::Serialization);
            },
            Some(v) => v,
        };
        if v.bound {
            if v.level >= context.chain_ids.len() {
                return Err(HeError::Serialization);
            }
            let c = context.chain_ids[v.level];
            if !(c.w0 == v.parms_id.w0 && c.w1 == v.parms_id.w1 && c.w2 == v.parms_id.w2 && c.w3
                == v.parms_id.w3) {
                return Err(HeError::Serialization);
            }
        }
        Ok(
            Plaintext {
                data: v.data,
                bound: v.bound,
                parms_id: v.parms_id,
                level: v.level,
                scale: v.scale,
                pool: pool_handle,
            },
        )
    }
}

/// A deep copy of slot contents.
pub fn clone_slot_data(d: &SlotData) -> (r: SlotData)
    ensures
        r@ == d@,
{
    match d {
        SlotData::Ints(v) => SlotData::Ints(crate::params::clone_u64_vec(v)),
        SlotData::Fixes(v) => {
            let mut out: Vec<i128> = Vec::new();
            let mut i: usize = 0;
            while i < v.len()
                invariant
                    i <= v@.len(),
                    out@ == v@.take(i as int),
                decreases v@.len() - i,
            {
                out.push(v[i]);
                proof {
                    assert(v@.take(i + 1) =~= v@.take(i as int).push(v@[i as int]));
                }
                i = i + 1;
            }
            proof {
                assert(v@.take(v@.len() as int) =~= v@);
            }
            SlotData::Fixes(out)
        },
    }
}

/// The words of a mantissa sequence: three per element.
pub open spec fn fixes_words(s: Seq<i128>) -> Seq<u64>
    decreases s.len(),
{
    if s.len() == 0 {
        Seq::empty()
    } else {
        i128_words(s[0]) + fixes_words(s.skip(1))
    }
}

pub proof fn lemma_fixes_words_len(s: Seq<i128>)
    ensures
        fixes_words(s).len() == 3 * s.len(),
    decreases s.len(),
{
    if s.len() > 0 {
        lemma_fixes_words_len(s.skip(1));
    }
}

/// Appending one mantissa appends its three words.
pub proof fn lemma_fixes_words_snoc(s: Seq<i128>, m: i128)
    ensures
        fixes_words(s.push(m)) == fixes_words(s) + i128_words(m),
    decreases s.len(),
{
    let t = s.push(m);
    assert(fixes_words(t) == i128_words(t[0]) + fixes_words(t.skip(1)));
    if s.len() == 0 {
        assert(t.skip(1) =~= Seq::<i128>::empty());
        assert(fixes_words(Seq::<i128>::empty()) =~= Seq::<u64>::empty());
        assert(fixes_words(s) =~= Seq::<u64>::empty());
        assert(fixes_words(t) =~= fixes_words(s) + i128_words(m));
    } else {
        assert(t.skip(1) =~= s.skip(1).push(m));
        lemma_fixes_words_snoc(s.skip(1), m);
        assert(t[0] == s[0]);
        assert(fixes_words(s) == i128_words(s[0]) + fixes_words(s.skip(1)));
        assert(fixes_words(t) =~= fixes_words(s) + i128_words(m));
    }
}

/// The words of mantissa `i` sit at offset `3 * i`.
pub proof fn lemma_fixes_words_index(s: Seq<i128>, i: int)
    requires
        0 <= i < s.len(),
    ensures
        fixes_words(s).subrange(3 * i, 3 * i + 3) == i128_words(s[i]),
    decreases i,
{
    lemma_fixes_words_len(s.skip(1));
    if i == 0 {
        assert(fixes_words(s).subrange(0, 3) =~= i128_words(s[0]));
    } else {
        lemma_fixes_words_index(s.skip(1), i - 1);
        assert(fixes_words(s).subrange(3 * i, 3 * i + 3) =~= fixes_words(s.skip(1)).subrange(
            3 * (i - 1),
            3 * (i - 1) + 3,
        ));
    }
}

/// The words of slot contents: a tag, the slot count, then the values.
pub open spec fn slots_words(d: SlotsV) -> Seq<u64> {
    match d {
        SlotsV::Ints(s) => seq![0u64, s.len() as u64] + s,
        SlotsV::Fixes(s) => seq![1u64, s.len() as u64] + fixes_words(s),
    }
}

pub proof fn lemma_slots_words_len(d: SlotsV)
    ensures
        slots_words(d).len() == 2 + match d {
            SlotsV::Ints(s) => s.len() as int,
            SlotsV::Fixes(s) => 3 * s.len() as int,
        },
{
    match d {
        SlotsV::Ints(s) => {},
        SlotsV::Fixes(s) => {
            lemma_fixes_words_len(s);
        },
    }
}

/// Reads slot contents back from the words at offset `at`; the contents must
/// extend exactly to `end`.
pub open spec fn parse_slots(ws: Seq<u64>, at: int, end: int) -> Option<SlotsV> {
    if end > ws.len() || end < at + 2 {
        None
    } else {
        let tag = ws[at];
        let n = ws[at + 1] as int;
        if n > SLOTS_MAX as int {
            None
        } else if tag == 0 {
            if end == at + 2 + n {
                Some(SlotsV::Ints(ws.subrange(at + 2, at + 2 + n)))
            } else {
                None
            }
        } else if tag == 1 {
            if end == at + 2 + 3 * n {
                if forall|i: int|
                    0 <= i < n ==> i128_words_ok(
                        #[trigger] ws[at + 2 + 3 * i],
                        ws[at + 2 + 3 * i + 1],
                        ws[at + 2 + 3 * i + 2],
                    ) {
                    Some(
                        SlotsV::Fixes(
                            Seq::new(
                                n as nat,
                                |i: int|
                                    i128_of(
                                        ws[at + 2 + 3 * i],
                                        ws[at + 2 + 3 * i + 1],
                                        ws[at + 2 + 3 * i + 2],
                                    ),
                            ),
                        ),
                    )
                } else {
                    None
                }
            } else {
                None
            }
        } else {
            None
        }
    }
}

/// The words of a plaintext.
pub open spec fn plaintext_words(v: PlaintextV) -> Seq<u64> {
    seq![
        WKIND_PLAINTEXT,
        if v.bound {
            1u64
        } else {
            0u64
        },
        v.parms_id.w0,
        v.parms_id.w1,
        v.parms_id.w2,
        v.parms_id.w3,
        v.level as u64,
        u128_lo(v.scale),
        u128_hi(v.scale),
    ] + slots_words(v.data)
}

/// Reads a plaintext back from a word stream, checking shape and ranges.
pub open spec fn parse_plaintext_words(ws: Seq<u64>) -> Option<PlaintextV> {
    if ws.len() < 11 {
        None
    } else if ws[0] != WKIND_PLAINTEXT || ws[1] > 1 || ws[6] >= 64 {
        None
    } else {
        match parse_slots(ws, 9, ws.len() as int) {
            None => None,
            Some(data) => {
                let v = PlaintextV {
                    data,
                    bound: ws[1] == 1,
                    parms_id: (ParmsId { w0: ws[2], w1: ws[3], w2: ws[4], w3: ws[5] }),
                    level: ws[6] as usize,
                    scale: u128_of(ws[7], ws[8]),
                };
                if v.wf() {
                    Some(v)
                } else {
                    None
                }
            },
        }
    }
}

/// Reads a plaintext back from a byte stream.
pub open spec fn parse_plaintext(bs: Seq<u8>) -> Option<PlaintextV> {
    match decode_words(bs) {
        None => None,
        Some(ws) => parse_plaintext_words(ws),
    }
}

/// Writes slot contents as words.
pub fn push_slot_data(out: &mut Vec<u64>, d: &SlotData)
    requires
        d@.len() <= SLOTS_MAX as int,
    ensures
        final(out)@ == old(out)@ + slots_words(d@),
{
    let ghost prev = out@;
    match d {
        SlotData::Ints(v) => {
            out.push(0);
            out.push(v.len() as u64);
            let mut i: usize = 0;
            while i < v.len()
                invariant
                    i <= v@.len(),
                    out@ == prev + seq![0u64, v@.len() as u64] + v@.take(i as int),
                decreases v@.len() - i,
            {
                out.push(v[i]);
                proof {
                    assert(v@.take(i + 1) =~= v@.take(i as int).push(v@[i as int]));
                }
                i = i + 1;
            }
            proof {
                assert(v@.take(v@.len() as int) =~= v@);
                assert(out@ =~= prev + slots_words(d@));
            }
        },
        SlotData::Fixes(v) => {
            out.push(1);
            out.push(v.len() as u64);
            let mut i: usize = 0;
            while i < v.len()
                invariant
                    i <= v@.len(),
                    out@ == prev + seq![1u64, v@.len() as u64] + fixes_words(v@.take(i as int)),
                decreases v@.len() - i,
            {
                push_i128(out, v[i]);
                proof {
                    lemma_fixes_words_snoc(v@.take(i as int), v@[i as int]);
                    assert(v@.take(i + 1) =~= v@.take(i as int).push(v@[i as int]));
                    assert(out@ =~= prev + seq![1u64, v@.len() as u64] + fixes_words(
                        v@.take(i + 1),
                    ));
                }
                i = i + 1;
            }
            proof {
                assert(v@.take(v@.len() as int) =~= v@);
                assert(out@ =~= prev + slots_words(d@));
            }
        },
    }
}

/// Reads slot contents back from the words at offset `at`, extending
/// exactly to `end`.
pub fn read_slot_data(ws: &Vec<u64>, at: usize, end: usize) -> (r: Option<SlotData>)
    requires
        at <= ws@.len(),
        end <= ws@.len(),
    ensures
        match (r, parse_slots(ws@, at as int, end as int)) {
            (Some(d), Some(s)) => d@ == s,
            (None, None) => true,
            _ => false,
        },
{
    if end < at || end - at < 2 {
        return None;
    }
    let tag = ws[at];
    let n64 = ws[at + 1];
    if n64 > SLOTS_MAX as u64 {
        return None;
    }
    let n = n64 as usize;
    if tag == 0 {
        if end - at - 2 != n {
            return None;
        }
        let mut v: Vec<u64> = Vec::new();
        let mut i: usize = 0;
        while i < n
            invariant
                i <= n,
                at + 2 + n == end,
                end <= ws@.len(),
                v@ == ws@.subrange(at + 2, at + 2 + i),
            decreases n - i,
        {
            v.push(ws[at + 2 + i]);
            proof {
                assert(ws@.subrange(at + 2, at + 2 + i + 1) =~= ws@.subrange(
                    at + 2,
                    at + 2 + i,
                ).push(ws@[at + 2 + i]));
            }
            i = i + 1;
        }
        Some(SlotData::Ints(v))
    } else if tag == 1 {
        if (end - at - 2) / 3 != n || (end - at - 2) % 3 != 0 {
            return None;
        }
        proof {
            vstd::arithmetic::div_mod::lemma_fundamental_div_mod((end - at - 2) as int, 3);
        }
        let ghost target = Seq::new(
            n as nat,
            |i: int|
                i128_of(
                    ws@[at + 2 + 3 * i],
                    ws@[at + 2 + 3 * i + 1],
                    ws@[at + 2 + 3 * i + 2],
                ),
        );
        let mut v: Vec<i128> = Vec::new();
        let mut i: usize = 0;
        while i < n
            invariant
                i <= n,
                at + 2 + 3 * n == end,
                end <= ws@.len(),
                ws@[at as int] == 1,
                n == ws@[at + 1],
                n <= SLOTS_MAX,
                v@ == target.take(i as int),
                target == Seq::new(
                    n as nat,
                    |j: int|
                        i128_of(
                            ws@[at + 2 + 3 * j],
                            ws@[at + 2 + 3 * j + 1],
                            ws@[at + 2 + 3 * j + 2],
                        ),
                ),
                forall|j: int|
                    0 <= j < i ==> i128_words_ok(
                        #[trigger] ws@[at + 2 + 3 * j],
                        ws@[at + 2 + 3 * j + 1],
                        ws@[at + 2 + 3 * j + 2],
                    ),
            decreases n - i,
        {
            let m = match read_i128(ws[at + 2 + 3 * i], ws[at + 2 + 3 * i + 1], ws[at + 2 + 3 * i
                + 2]) {
                Err(()) => {
                    proof {
                        assert(!i128_words_ok(
                            ws@[at + 2 + 3 * (i as int)],
                            ws@[at + 2 + 3 * (i as int) + 1],
                            ws@[at + 2 + 3 * (i as int) + 2],
                        ));
                    }
                    return None;
                },
                Ok(m) => m,
            };
            v.push(m);
            proof {
                assert(target.take(i + 1) =~= target.take(i as int).push(target[i as int]));
            }
            i = i + 1;
        }
        proof {
            assert(target.take(n as int) =~= target);
        }
        Some(SlotData::Fixes(v))
    } else {
        None
    }
}

/// Reads a plaintext back from a word stream.
pub fn read_plaintext_words(ws: &Vec<u64>) -> (r: Option<Plaintext>)
    ensures
        match (r, parse_plaintext_words(ws@)) {
            (Some(p), Some(v)) => p@ == v,
            (None, None) => true,
            _ => false,
        },
{
    if ws.len() < 11 {
        return None;
    }
    if ws[0] != WKIND_PLAINTEXT || ws[1] > 1 || ws[6] >= 64 {
        return None;
    }
    let data = match read_slot_data(ws, 9, ws.len()) {
        None => {
            return None;
        },
        Some(d) => d,
    };
    let p = Plaintext {
        data,
        bound: ws[1] == 1,
        parms_id: ParmsId { w0: ws[2], w1: ws[3], w2: ws[4], w3: ws[5] },
        level: ws[6] as usize,
        scale: crate::codec::join_u128(ws[7], ws[8]),
        pool: MemoryPoolHandle { thread_local: true },
    };
    if !plaintext_wf_exec(&p) {
        return None;
    }
    Some(p)
}

/// Runtime check of [`PlaintextV::wf`].
pub fn plaintext_wf_exec(p: &Plaintext) -> (r: bool)
    ensures
        r == p@.wf(),
{
    if p.level >= 64 {
        return false;
    }
    match &p.data {
        SlotData::Ints(v) => v.len() <= SLOTS_MAX && p.scale == 0,
        SlotData::Fixes(v) => {
            if v.len() > SLOTS_MAX {
                return false;
            }
            if !(1 <= p.scale && p.scale <= SCALE_LIMIT) {
                return false;
            }
            if !p.bound {
                return false;
            }
            let mut i: usize = 0;
            while i < v.len()
                invariant
                    i <= v@.len(),
                    p@.data == SlotsV::Fixes(v@),
                    p.level < 64,
                    v@.len() <= SLOTS_MAX,
                    1 <= p.scale <= SCALE_LIMIT,
                    p.bound,
                    forall|j: int| 0 <= j < i ==> -MANT_LIMIT <= #[trigger] v@[j] <= MANT_LIMIT,
                decreases v@.len() - i,
            {
                let m = v[i];
                if m < -MANT_LIMIT || m > MANT_LIMIT {
                    proof {
                        assert(!(-MANT_LIMIT <= v@[i as int] <= MANT_LIMIT));
                    }
                    return false;
                }
                i = i + 1;
            }
            true
        },
    }
}

/// Reading a well-formed plaintext's byte form yields the plaintext back.
pub proof fn lemma_plaintext_roundtrip(v: PlaintextV)
    requires
        v.wf(),
    ensures
        parse_plaintext(encode_words(plaintext_words(v))) == Some(v),
{
    lemma_slots_words_len(v.data);
    lemma_words_roundtrip(plaintext_words(v));
    let ws = plaintext_words(v);
    lemma_u128_split_join(v.scale);
    match v.data {
        SlotsV::Ints(s) => {
            assert(ws.subrange(11, 11 + s.len() as int) =~= s);
            assert(parse_slots(ws, 9, ws.len() as int) == Some(v.data));
        },
        SlotsV::Fixes(s) => {
            let n = s.len() as int;
            assert(ws.len() == 11 + 3 * n);
            assert forall|i: int| 0 <= i < n implies i128_words_ok(
                #[trigger] ws[11 + 3 * i],
                ws[11 + 3 * i + 1],
                ws[11 + 3 * i + 2],
            ) by {
                lemma_fixes_words_index(s, i);
                lemma_i128_split_join(s[i]);
                assert(ws.subrange(11 + 3 * i, 11 + 3 * i + 3) =~= fixes_words(s).subrange(
                    3 * i,
                    3 * i + 3,
                ));
                assert(ws[11 + 3 * i] == i128_words(s[i])[0]);
                assert(ws[11 + 3 * i + 1] == i128_words(s[i])[1]);
                assert(ws[11 + 3 * i + 2] == i128_words(s[i])[2]);
            }
            let parsed = Seq::new(
                n as nat,
                |i: int| i128_of(ws[11 + 3 * i], ws[11 + 3 * i + 1], ws[11 + 3 * i + 2]),
            );
            assert forall|i: int| 0 <= i < n implies parsed[i] == s[i] by {
                lemma_fixes_words_index(s, i);
                lemma_i128_split_join(s[i]);
                assert(ws.subrange(11 + 3 * i, 11 + 3 * i + 3) =~= fixes_words(s).subrange(
                    3 * i,
                    3 * i + 3,
                ));
                assert(ws[11 + 3 * i] == i128_words(s[i])[0]);
                assert(ws[11 + 3 * i + 1] == i128_words(s[i])[1]);
                assert(ws[11 + 3 * i + 2] == i128_words(s[i])[2]);
            }
            assert(parsed =~= s);
            assert(parse_slots(ws, 9, ws.len() as int) == Some(v.data));
        },
    }
}

} // verus!
