//! The general results the library promises, stated over the same
//! specifications its public contracts use.
//!
//! Round-trip results for the persisted artifacts live next to the types:
//! [`crate::params::lemma_params_roundtrip`],
//! [`crate::plain_text::lemma_plaintext_roundtrip`],
//! [`crate::cipher_text::lemma_ciphertext_roundtrip`] and
//! [`crate::key_generator::lemma_key_roundtrip`].

use vstd::prelude::*;

use crate::cipher_text::CiphertextV;
use crate::context::ContextV;
use crate::decryptor::decrypt_spec;
use crate::decryptor::decrypts_correctly;
use crate::encryptor::encrypt_ok;
use crate::encryptor::encrypt_spec;
use crate::error::HeError;
use crate::evaluator::add_ints;
use crate::evaluator::add_spec;
use crate::evaluator::min_budget;
use crate::evaluator::mod_switch_next_spec;
use crate::evaluator::compact_spec;
use crate::evaluator::mul_cost;
use crate::evaluator::mul_ints;
use crate::evaluator::mul_plain_spec;
use crate::evaluator::mul_spec;
use crate::evaluator::plain_parms_match;
use crate::evaluator::relinearize_spec;
use crate::evaluator::zero_plain;
use crate::key_generator::key_wf;
use crate::key_generator::KeyV;
use crate::key_generator::KEY_TAG_RELIN;
use crate::plain_text::pad_fixes;
use crate::plain_text::PlaintextV;
use crate::plain_text::SlotsV;
use crate::cipher_text::BUDGET_MAX;
use crate::SCHEME_BFV;

verus! {

/// The first parameter identity of a context is determined by the
/// parameters alone: two validated contexts built over the same parameter
/// set expose the same fingerprint at every shared chain level.  Together
/// with the contract of `Context::first_parms_id`, which returns a pure
/// function of the context, this makes the fingerprint deterministic and
/// stable across repeated calls.
pub proof fn lemma_first_parms_id_deterministic(c1: ContextV, c2: ContextV)
    requires
        c1.wf(),
        c2.wf(),
        c1.params == c2.params,
    ensures
        c1.chain[0] == c2.chain[0],
        forall|l: int|
            0 <= l < c1.levels as int && l < c2.levels as int ==> c1.chain[l] == c2.chain[l],
{
    assert forall|l: int|
        0 <= l < c1.levels as int && l < c2.levels as int implies c1.chain[l]
        == c2.chain[l] by {
        assert(c1.chain[l] == c1.level_id(l));
        assert(c2.chain[l] == c2.level_id(l));
    }
    assert(c1.chain[0] == c1.level_id(0));
    assert(c2.chain[0] == c2.level_id(0));
}

/// Encrypt/decrypt identity: a plaintext encodable under a context, once
/// encrypted at a level whose fresh noise budget is positive, decrypts back
/// to its original slot values — exactly for the integer scheme, and with
/// the mantissas merely padded to the full slot width for the fractional
/// scheme — at its original scale.
pub proof fn lemma_encrypt_decrypt_identity(ctx: ContextV, p: PlaintextV)
    requires
        ctx.wf(),
        p.wf(),
        p.ok_for(ctx),
        encrypt_ok(p, ctx),
        ctx.fresh_budget(
            if p.bound {
                p.level as int
            } else {
                0
            },
        ) > 0,
    ensures
        ({
            let q = decrypt_spec(encrypt_spec(p, ctx));
            &&& q.scale == p.scale
            &&& match (p.data, q.data) {
                (SlotsV::Ints(a), SlotsV::Ints(b)) => b == a,
                (SlotsV::Fixes(a), SlotsV::Fixes(b)) => b == pad_fixes(
                    a,
                    ctx.params.degree as int / 2,
                ),
                _ => false,
            }
        }),
{
    let lvl: int = if p.bound {
        p.level as int
    } else {
        0
    };
    lemma_sum_bits_upper(ctx.params.coeff.take(ctx.data_count - lvl));
    let c = encrypt_spec(p, ctx);
    assert(decrypts_correctly(c));
}

/// Additive homomorphism for the integer scheme: the sum of two encryptions
/// decrypts to the elementwise sum of the encrypted values modulo the
/// plaintext modulus.
pub proof fn lemma_add_homomorphism(ctx: ContextV, pa: PlaintextV, pb: PlaintextV)
    requires
        ctx.wf(),
        ctx.params.scheme == SCHEME_BFV,
        pa.wf(),
        pb.wf(),
        !pa.bound,
        !pb.bound,
        encrypt_ok(pa, ctx),
        encrypt_ok(pb, ctx),
        ctx.fresh_budget(0) > 0,
    ensures
        ({
            let r = add_spec(ctx, encrypt_spec(pa, ctx), encrypt_spec(pb, ctx));
            &&& r is Ok
            &&& decrypt_spec(r->Ok_0).data == SlotsV::Ints(
                add_ints(pa.data->Ints_0, pb.data->Ints_0, ctx.params.plain),
            )
        }),
{
    lemma_sum_bits_upper(ctx.params.coeff.take(ctx.data_count as int));
    let ca = encrypt_spec(pa, ctx);
    let cb = encrypt_spec(pb, ctx);
    let r = add_spec(ctx, ca, cb);
    assert(r is Ok);
    assert(decrypts_correctly(r->Ok_0));
}

/// Multiplicative homomorphism for the integer scheme: the relinearized
/// product of two encryptions decrypts to the elementwise product of the
/// encrypted values modulo the plaintext modulus, as long as the fresh
/// budget covers one multiplication.
pub proof fn lemma_mul_homomorphism(ctx: ContextV, pa: PlaintextV, pb: PlaintextV, k: KeyV)
    requires
        ctx.wf(),
        ctx.params.scheme == SCHEME_BFV,
        pa.wf(),
        pb.wf(),
        !pa.bound,
        !pb.bound,
        encrypt_ok(pa, ctx),
        encrypt_ok(pb, ctx),
        key_wf(k, ctx, KEY_TAG_RELIN),
        ctx.fresh_budget(0) - mul_cost(ctx) > 0,
    ensures
        ({
            let m = mul_spec(ctx, encrypt_spec(pa, ctx), encrypt_spec(pb, ctx));
            &&& m is Ok
            &&& relinearize_spec(ctx, m->Ok_0, k) is Ok
            &&& decrypt_spec(relinearize_spec(ctx, m->Ok_0, k)->Ok_0).data == SlotsV::Ints(
                mul_ints(pa.data->Ints_0, pb.data->Ints_0, ctx.params.plain),
            )
        }),
{
    let ca = encrypt_spec(pa, ctx);
    let cb = encrypt_spec(pb, ctx);
    let m = mul_spec(ctx, ca, cb);
    assert(m is Ok);
    let rl = relinearize_spec(ctx, m->Ok_0, k);
    assert(rl is Ok);
    assert(ctx.fresh_budget(0) <= BUDGET_MAX as int) by {
        assert(crate::context::sum_bits(ctx.level_primes(0)) <= 64 * 64) by {
            lemma_sum_bits_upper(ctx.params.coeff.take(ctx.data_count as int));
        }
    }
    assert(decrypts_correctly(rl->Ok_0));
}

/// The total bit length of a chain of at most 64 moduli of at most 64 bits
/// each is itself bounded.
pub proof fn lemma_sum_bits_upper(s: Seq<u64>)
    requires
        s.len() <= 64,
    ensures
        crate::context::sum_bits(s) <= 64 * s.len(),
    decreases s.len(),
{
    if s.len() > 0 {
        vstd::arithmetic::power2::lemma2_to64();
        crate::small_modulus::lemma_bitlen_upper(s[0] as nat, 64);
        lemma_sum_bits_upper(s.skip(1));
    }
}


/// Round trip for parameter sets: the byte stream a savable parameter set
/// writes parses back to the same value.
pub proof fn lemma_params_save_load(v: crate::params::ParamsV)
    requires
        crate::params::params_savable(v),
    ensures
        crate::params::parse_params(
            crate::codec::encode_words(crate::params::params_words(v)),
        ) == Some(v),
{
    crate::params::lemma_params_roundtrip(v);
}

/// Round trip for plaintexts: the byte stream a well-formed plaintext
/// writes parses back to the same value, and a context whose chain the
/// plaintext names accepts it on loading.
pub proof fn lemma_plaintext_save_load(ctx: ContextV, p: PlaintextV)
    requires
        ctx.wf(),
        p.wf(),
        p.ok_for(ctx),
    ensures
        crate::plain_text::parse_plaintext(
            crate::codec::encode_words(crate::plain_text::plaintext_words(p)),
        ) == Some(p),
{
    crate::plain_text::lemma_plaintext_roundtrip(p);
}

/// Round trip for ciphertexts: the byte stream a well-formed ciphertext
/// writes parses back to the same value, and a context whose chain the
/// ciphertext belongs to accepts it on loading.
pub proof fn lemma_ciphertext_save_load(ctx: ContextV, c: CiphertextV)
    requires
        ctx.wf(),
        c.wf(),
        c.ok_for(ctx),
    ensures
        crate::cipher_text::parse_ciphertext(
            crate::codec::encode_words(crate::cipher_text::ciphertext_words(c)),
        ) == Some(c),
{
    crate::cipher_text::lemma_ciphertext_roundtrip(c);
}

/// Round trip for key material of every key kind: the byte stream a key
/// writes is exactly what loading under its own context accepts.
pub proof fn lemma_key_save_load(ctx: ContextV, kind: u64, tag: u64, v: KeyV)
    requires
        key_wf(v, ctx, tag),
        v.material.len() < 1024,
    ensures
        crate::key_generator::key_load_ok(
            kind,
            tag,
            crate::codec::encode_words(crate::key_generator::key_words(kind, v)),
            ctx,
        ),
{
    crate::key_generator::lemma_key_roundtrip(kind, v);
}

/// Transparent-ciphertext rejection: multiplying any ciphertext by an
/// identically zero plaintext that would otherwise be admissible is refused
/// with the distinguished transparent-ciphertext condition, never a
/// successful result.
pub proof fn lemma_transparent_rejection(ctx: ContextV, a: CiphertextV, p: PlaintextV)
    requires
        zero_plain(p.data),
        plain_parms_match(a, p),
    ensures
        mul_plain_spec(ctx, a, p) == Err::<CiphertextV, HeError>(HeError::TransparentCiphertext),
{
}

/// Noise monotonicity: the budget of a multiplicative result never exceeds
/// the smaller operand budget, and for the integer scheme it strictly
/// decreases until the tracked floor is reached.
pub proof fn lemma_mul_budget_monotone(ctx: ContextV, a: CiphertextV, b: CiphertextV)
    requires
        ctx.wf(),
        a.wf(),
        b.wf(),
        mul_spec(ctx, a, b) is Ok,
    ensures
        mul_spec(ctx, a, b)->Ok_0.budget <= min_budget(a.budget, b.budget),
        ctx.params.scheme == SCHEME_BFV ==> (mul_spec(ctx, a, b)->Ok_0.budget < min_budget(
            a.budget,
            b.budget,
        ) || mul_spec(ctx, a, b)->Ok_0.budget == -BUDGET_MAX),
{
    crate::small_modulus::lemma_bitlen_pos(ctx.params.degree as nat);
    if ctx.params.scheme == SCHEME_BFV {
        crate::small_modulus::lemma_bitlen_pos(ctx.params.plain as nat);
        assert(crate::small_modulus::bitlen(ctx.params.plain as nat) >= 2) by {
            assert(crate::small_modulus::bitlen((ctx.params.plain as nat) / 2) >= 1) by {
                crate::small_modulus::lemma_bitlen_pos((ctx.params.plain as nat) / 2);
            }
        }
    }
}

/// Noise monotonicity for plaintext multiplication: the budget never
/// grows, and for the integer scheme it strictly decreases until the
/// tracked floor is reached.
pub proof fn lemma_mul_plain_budget_monotone(ctx: ContextV, a: CiphertextV, p: PlaintextV)
    requires
        ctx.wf(),
        a.wf(),
        mul_plain_spec(ctx, a, p) is Ok,
    ensures
        mul_plain_spec(ctx, a, p)->Ok_0.budget <= a.budget,
        ctx.params.scheme == SCHEME_BFV ==> (mul_plain_spec(ctx, a, p)->Ok_0.budget < a.budget
            || mul_plain_spec(ctx, a, p)->Ok_0.budget == -BUDGET_MAX),
{
    if ctx.params.scheme == SCHEME_BFV {
        crate::small_modulus::lemma_bitlen_pos(ctx.params.plain as nat);
    }
}

/// A run of multiplications by a fixed ciphertext, each result feeding the
/// next step.  Relinearization between steps leaves the budget unchanged,
/// so it is omitted from the trace.
pub open spec fn mul_chain(ev: ContextV, b: CiphertextV, c: CiphertextV, k: nat) -> Option<
    CiphertextV,
> 
    decreases k,
{
    if k == 0 {
        Some(c)
    } else {
        match mul_chain(ev, b, c, (k - 1) as nat) {
            None => None,
            Some(p) => match mul_spec(ev, p, b) {
                Err(e) => None,
                Ok(m) => Some(m),
            },
        }
    }
}

/// The larger of two integers.
pub open spec fn max_int(a: int, b: int) -> int {
    if a >= b {
        a
    } else {
        b
    }
}

/// Noise monotonicity over a whole trace: after `k` multiplications the
/// budget has dropped by `k` times the per-multiplication cost, down to the
/// tracked floor.
pub proof fn lemma_mul_chain_budget(ev: ContextV, b: CiphertextV, c: CiphertextV, k: nat)
    requires
        ev.wf(),
        mul_chain(ev, b, c, k) is Some,
    ensures
        mul_chain(ev, b, c, k)->0.budget as int <= max_int(
            c.budget as int - k * mul_cost(ev),
            -BUDGET_MAX as int,
        ),
    decreases k,
{
    crate::small_modulus::lemma_bitlen_pos(ev.params.degree as nat);
    if k > 0 {
        lemma_mul_chain_budget(ev, b, c, (k - 1) as nat);
        assert((k - 1) * mul_cost(ev) + mul_cost(ev) == k * mul_cost(ev)) by (nonlinear_arith);
    }
}

/// Budget exhaustion over a whole trace: once enough multiplications have
/// run to cover the starting budget, the remaining budget is at or below
/// zero — the ciphertext is at or past the threshold of reliable
/// decryption.
pub proof fn lemma_mul_chain_exhausts(ev: ContextV, b: CiphertextV, c: CiphertextV, k: nat)
    requires
        ev.wf(),
        mul_chain(ev, b, c, k) is Some,
        k * mul_cost(ev) >= c.budget as int,
    ensures
        mul_chain(ev, b, c, k)->0.budget <= 0,
{
    lemma_mul_chain_budget(ev, b, c, k);
}

/// Modulus switching shrinks the serialized form: one chain level fewer is
/// one residue block fewer per polynomial component, and the byte form
/// spans the residues, so each switch strictly shortens what `save`
/// writes.  Carrying a ciphertext all the way down with `compact_size`
/// therefore trades noise budget for serialized size.
pub proof fn lemma_mod_switch_shrinks_serialized(ctx: ContextV, a: CiphertextV)
    requires
        ctx.wf(),
        a.wf(),
        a.ok_for(ctx),
        mod_switch_next_spec(ctx, a) is Ok,
    ensures
        crate::codec::encode_words(
            crate::cipher_text::ciphertext_words(mod_switch_next_spec(ctx, a)->Ok_0),
        ).len() < crate::codec::encode_words(crate::cipher_text::ciphertext_words(a)).len(),
{
    let b = mod_switch_next_spec(ctx, a)->Ok_0;
    lemma_serialized_len_shrinks(a, b);
}

/// A compacted ciphertext above the lowest level serializes strictly
/// shorter than it did before compaction.
pub proof fn lemma_compact_shrinks_serialized(ctx: ContextV, a: CiphertextV)
    requires
        ctx.wf(),
        a.wf(),
        a.ok_for(ctx),
        (a.level as int) < ctx.levels as int - 1,
    ensures
        crate::codec::encode_words(
            crate::cipher_text::ciphertext_words(compact_spec(ctx, a)->Ok_0),
        ).len() < crate::codec::encode_words(crate::cipher_text::ciphertext_words(a)).len(),
{
    let b = compact_spec(ctx, a)->Ok_0;
    lemma_serialized_len_shrinks(a, b);
}

/// Two ciphertexts alike in everything but the prime count serialize in
/// proportion to that count.
proof fn lemma_serialized_len_shrinks(a: CiphertextV, b: CiphertextV)
    requires
        a.wf(),
        b.data == a.data,
        b.ct_size == a.ct_size,
        b.degree == a.degree,
        1 <= b.coeff_count < a.coeff_count,
    ensures
        crate::codec::encode_words(crate::cipher_text::ciphertext_words(b)).len()
            < crate::codec::encode_words(crate::cipher_text::ciphertext_words(a)).len(),
{
    crate::plain_text::lemma_slots_words_len(a.data);
    let raw_a = crate::cipher_text::raw_word_count(a);
    let raw_b = crate::cipher_text::raw_word_count(b);
    assert(a.data.len() <= a.degree as int);
    assert(a.data.len() <= raw_b && raw_b < raw_a && raw_a <= 32 * 64 * 32768)
        by (nonlinear_arith)
        requires
            2 <= a.ct_size <= 32,
            1 <= b.coeff_count < a.coeff_count <= 64,
            1024 <= a.degree <= 32768,
            raw_a == a.ct_size * a.coeff_count * a.degree,
            raw_b == a.ct_size * b.coeff_count * a.degree,
            a.data.len() <= a.degree,
    ;
    let wa = crate::cipher_text::ciphertext_words(a);
    let wb = crate::cipher_text::ciphertext_words(b);
    crate::codec::lemma_words_bytes_len(wa);
    crate::codec::lemma_words_bytes_len(wb);
    vstd::bytes::lemma_auto_spec_u64_to_from_le_bytes();
}

/// Mod-switch-chain exhaustion: switching succeeds exactly while the
/// ciphertext sits above the lowest chain level, fails with the
/// chain-exhausted condition exactly at the lowest level, and each success
/// descends exactly one level — so repeated switching reaches the refusal
/// after precisely the number of levels below the start.
pub proof fn lemma_chain_exhaustion(ctx: ContextV, a: CiphertextV)
    requires
        ctx.wf(),
        a.wf(),
        a.ok_for(ctx),
    ensures
        (mod_switch_next_spec(ctx, a) is Err) <==> (a.level as int == ctx.levels as int - 1),
        mod_switch_next_spec(ctx, a) is Err ==> mod_switch_next_spec(ctx, a)->Err_0
            == HeError::ChainExhausted,
        mod_switch_next_spec(ctx, a) is Ok ==> mod_switch_next_spec(ctx, a)->Ok_0.level
            == a.level + 1,
{
}

/// A compacted ciphertext sits at the lowest usable level, and one more
/// modulus switch on it is refused with the chain-exhausted condition.
pub proof fn lemma_compact_reaches_bottom(ctx: ContextV, a: CiphertextV)
    requires
        ctx.wf(),
        a.wf(),
        a.ok_for(ctx),
    ensures
        compact_spec(ctx, a) is Ok,
        compact_spec(ctx, a)->Ok_0.level as int == ctx.levels as int - 1,
        mod_switch_next_spec(ctx, compact_spec(ctx, a)->Ok_0) == Err::<CiphertextV, HeError>(
            HeError::ChainExhausted,
        ),
{
}

} // verus!

