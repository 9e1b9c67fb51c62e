//! The evaluator: the operation set over ciphertexts and plaintexts, and
//! the level-and-scale bookkeeping it enforces.
//!
//! Every operation is a pure function of one or two inputs producing a new
//! output object; no operation mutates its inputs.  Before any slot
//! arithmetic, the evaluator checks the consistency invariants the scheme
//! requires — identical parameter identity, identical scale for the
//! fractional scheme, a size that fits the operation — and reports a named
//! condition when they fail.  Multiplying by an identically zero plaintext
//! is refused with the distinguished transparent-ciphertext condition,
//! since the result would decrypt without the secret key.

use vstd::prelude::*;

use crate::cipher_text::Ciphertext;
use crate::cipher_text::CiphertextV;
use crate::cipher_text::CT_SIZE_MAX;
use crate::cipher_text::BUDGET_MAX;
use crate::context::Context;
use crate::context::ContextV;
use crate::context::ParmsId;
use crate::context::sum_bits_exec;
use crate::error::HeError;
use crate::error::OperationIssue;
use crate::key_generator::key_wf;
use crate::key_generator::GaloisKeys;
use crate::key_generator::RelinearizationKeys;
use crate::key_generator::KEY_TAG_GALOIS;
use crate::key_generator::KEY_TAG_RELIN;
use crate::plain_text::fixes_bounded;
use crate::plain_text::Plaintext;
use crate::plain_text::PlaintextV;
use crate::plain_text::SlotData;
use crate::plain_text::SlotsV;
use crate::plain_text::MANT_LIMIT;
use crate::plain_text::SCALE_LIMIT;
use crate::small_modulus::bit_length;
use crate::small_modulus::bitlen;

verus! {

/// A residue slot read with implicit zero extension.
pub open spec fn getz_u64(s: Seq<u64>, i: int) -> u64 {
    if 0 <= i < s.len() {
        s[i]
    } else {
        0u64
    }
}

/// A mantissa slot read with implicit zero extension.
pub open spec fn getz_i128(s: Seq<i128>, i: int) -> i128 {
    if 0 <= i < s.len() {
        s[i]
    } else {
        0i128
    }
}

/// The larger of two lengths.
pub open spec fn max_len(a: int, b: int) -> int {
    if a >= b {
        a
    } else {
        b
    }
}

/// Elementwise sum of residues modulo the plaintext modulus, zero-extended
/// to the longer operand.
pub open spec fn add_ints(a: Seq<u64>, b: Seq<u64>, t: u64) -> Seq<u64> {
    Seq::new(
        max_len(a.len() as int, b.len() as int) as nat,
        |i: int| (((getz_u64(a, i) + getz_u64(b, i)) as int) % (t as int)) as u64,
    )
}

/// Elementwise product of residues modulo the plaintext modulus,
/// zero-extended to the longer operand.
pub open spec fn mul_ints(a: Seq<u64>, b: Seq<u64>, t: u64) -> Seq<u64> {
    Seq::new(
        max_len(a.len() as int, b.len() as int) as nat,
        |i: int| (((getz_u64(a, i) as int) * (getz_u64(b, i) as int)) % (t as int)) as u64,
    )
}

/// Elementwise sum of mantissas, zero-extended to the longer operand.
pub open spec fn add_fixes(a: Seq<i128>, b: Seq<i128>) -> Seq<i128> {
    Seq::new(
        max_len(a.len() as int, b.len() as int) as nat,
        |i: int| (getz_i128(a, i) + getz_i128(b, i)) as i128,
    )
}

/// Whether every elementwise mantissa sum stays in the working range.
pub open spec fn add_fixes_ok(a: Seq<i128>, b: Seq<i128>) -> bool {
    forall|i: int|
        0 <= i < max_len(a.len() as int, b.len() as int) ==> -MANT_LIMIT as int <= #[trigger] getz_i128(
            a,
            i,
        ) + getz_i128(b, i) <= MANT_LIMIT as int
}

/// Elementwise product of mantissas, zero-extended to the longer operand.
pub open spec fn mul_fixes(a: Seq<i128>, b: Seq<i128>) -> Seq<i128> {
    Seq::new(
        max_len(a.len() as int, b.len() as int) as nat,
        |i: int| ((getz_i128(a, i) as int) * (getz_i128(b, i) as int)) as i128,
    )
}

/// Whether every elementwise mantissa product stays in the working range.
pub open spec fn mul_fixes_ok(a: Seq<i128>, b: Seq<i128>) -> bool {
    forall|i: int|
        0 <= i < max_len(a.len() as int, b.len() as int) ==> -MANT_LIMIT as int <= (
        #[trigger] getz_i128(a, i) as int) * (getz_i128(b, i) as int) <= MANT_LIMIT as int
}

/// Whether a plaintext is identically zero: the transparent-ciphertext
/// condition of plaintext multiplication.
pub open spec fn zero_plain(d: SlotsV) -> bool {
    match d {
        SlotsV::Ints(s) => forall|i: int| 0 <= i < s.len() ==> #[trigger] s[i] == 0,
        SlotsV::Fixes(s) => forall|i: int| 0 <= i < s.len() ==> #[trigger] s[i] == 0,
    }
}

/// A budget value clamped to the tracked range.
pub open spec fn clamp_budget(x: int) -> i64 {
    if x < -(BUDGET_MAX as int) {
        (-(BUDGET_MAX as int)) as i64
    } else if x > BUDGET_MAX as int {
        BUDGET_MAX
    } else {
        x as i64
    }
}

/// The smaller of two budgets.
pub open spec fn min_budget(a: i64, b: i64) -> i64 {
    if a <= b {
        a
    } else {
        b
    }
}

/// The budget a ciphertext-by-ciphertext multiplication consumes: the bit
/// length of the plaintext modulus plus the logarithm of the degree.
pub open spec fn mul_cost(ev: ContextV) -> int {
    bitlen(ev.params.plain as nat) + bitlen(ev.params.degree as nat) - 1
}

/// The budget a plaintext multiplication consumes: the bit length of the
/// plaintext modulus.
pub open spec fn mul_plain_cost(ev: ContextV) -> int {
    bitlen(ev.params.plain as nat) as int
}

/// Whether a plaintext operand may meet a ciphertext operand: an unbound
/// plaintext meets any ciphertext, a bound one only its own chain point.
pub open spec fn plain_parms_match(a: CiphertextV, p: PlaintextV) -> bool {
    p.bound ==> (p.level == a.level && p.parms_id == a.parms_id)
}

/// The outcome of `add`: checks, then elementwise slot addition.  The
/// output keeps the first operand's scale and chain point, grows to the
/// larger component count, and keeps the smaller noise budget.
pub open spec fn add_spec(ev: ContextV, a: CiphertextV, b: CiphertextV) -> Result<
    CiphertextV,
    HeError,
> {
    if a.level != b.level || a.parms_id != b.parms_id {
        Err(HeError::Operation(OperationIssue::ParmsMismatch))
    } else {
        match (a.data, b.data) {
            (SlotsV::Ints(x), SlotsV::Ints(y)) => Ok(
                CiphertextV {
                    data: SlotsV::Ints(add_ints(x, y, a.plain_modulus)),
                    ct_size: if a.ct_size >= b.ct_size {
                        a.ct_size
                    } else {
                        b.ct_size
                    },
                    budget: min_budget(a.budget, b.budget),
                    ..a
                },
            ),
            (SlotsV::Fixes(x), SlotsV::Fixes(y)) => {
                if a.scale != b.scale {
                    Err(HeError::Operation(OperationIssue::ScaleMismatch))
                } else if !add_fixes_ok(x, y) {
                    Err(HeError::Operation(OperationIssue::RangeOverflow))
                } else {
                    Ok(
                        CiphertextV {
                            data: SlotsV::Fixes(add_fixes(x, y)),
                            ct_size: if a.ct_size >= b.ct_size {
                                a.ct_size
                            } else {
                                b.ct_size
                            },
                            budget: min_budget(a.budget, b.budget),
                            ..a
                        },
                    )
                }
            },
            _ => Err(HeError::Operation(OperationIssue::SchemeMismatch)),
        }
    }
}

/// The outcome of `add_plain`: checks, then elementwise slot addition of a
/// plaintext.  Size and budget are unchanged.
pub open spec fn add_plain_spec(ev: ContextV, a: CiphertextV, p: PlaintextV) -> Result<
    CiphertextV,
    HeError,
> {
    if !plain_parms_match(a, p) {
        Err(HeError::Operation(OperationIssue::ParmsMismatch))
    } else if p.data.len() > a.data.len() {
        Err(HeError::Operation(OperationIssue::SizeMismatch))
    } else {
        match (a.data, p.data) {
            (SlotsV::Ints(x), SlotsV::Ints(y)) => Ok(
                CiphertextV { data: SlotsV::Ints(add_ints(x, y, a.plain_modulus)), ..a },
            ),
            (SlotsV::Fixes(x), SlotsV::Fixes(y)) => {
                if a.scale != p.scale {
                    Err(HeError::Operation(OperationIssue::ScaleMismatch))
                } else if !add_fixes_ok(x, y) {
                    Err(HeError::Operation(OperationIssue::RangeOverflow))
                } else {
                    Ok(CiphertextV { data: SlotsV::Fixes(add_fixes(x, y)), ..a })
                }
            },
            _ => Err(HeError::Operation(OperationIssue::SchemeMismatch)),
        }
    }
}

/// The outcome of `multiply`: checks, then elementwise slot multiplication.
/// The output size is the sum of the input sizes less one, the scale is the
/// product of the scales, and the budget drops by the multiplication cost;
/// the result is not rescaled automatically.
pub open spec fn mul_spec(ev: ContextV, a: CiphertextV, b: CiphertextV) -> Result<
    CiphertextV,
    HeError,
> {
    if a.level != b.level || a.parms_id != b.parms_id {
        Err(HeError::Operation(OperationIssue::ParmsMismatch))
    } else if a.ct_size + b.ct_size - 1 > CT_SIZE_MAX as int {
        Err(HeError::Operation(OperationIssue::SizeMismatch))
    } else {
        match (a.data, b.data) {
            (SlotsV::Ints(x), SlotsV::Ints(y)) => Ok(
                CiphertextV {
                    data: SlotsV::Ints(mul_ints(x, y, a.plain_modulus)),
                    ct_size: (a.ct_size + b.ct_size - 1) as usize,
                    budget: clamp_budget(
                        min_budget(a.budget, b.budget) as int - mul_cost(ev),
                    ),
                    ..a
                },
            ),
            (SlotsV::Fixes(x), SlotsV::Fixes(y)) => {
                if (a.scale as int) * (b.scale as int) > SCALE_LIMIT as int {
                    Err(HeError::Operation(OperationIssue::RangeOverflow))
                } else if !mul_fixes_ok(x, y) {
                    Err(HeError::Operation(OperationIssue::RangeOverflow))
                } else {
                    Ok(
                        CiphertextV {
                            data: SlotsV::Fixes(mul_fixes(x, y)),
                            ct_size: (a.ct_size + b.ct_size - 1) as usize,
                            scale: (a.scale * b.scale) as u128,
                            budget: clamp_budget(
                                min_budget(a.budget, b.budget) as int - mul_cost(ev),
                            ),
                            ..a
                        },
                    )
                }
            },
            _ => Err(HeError::Operation(OperationIssue::SchemeMismatch)),
        }
    }
}

/// The outcome of `multiply_plain`: checks, the transparent-ciphertext
/// refusal for an identically zero plaintext, then elementwise slot
/// multiplication.  The size is unchanged; the scale is the product of the
/// scales; the budget drops by the plaintext-multiplication cost.
pub open spec fn mul_plain_spec(ev: ContextV, a: CiphertextV, p: PlaintextV) -> Result<
    CiphertextV,
    HeError,
> {
    if !plain_parms_match(a, p) {
        Err(HeError::Operation(OperationIssue::ParmsMismatch))
    } else if zero_plain(p.data) {
        Err(HeError::TransparentCiphertext)
    } else if p.data.len() > a.data.len() {
        Err(HeError::Operation(OperationIssue::SizeMismatch))
    } else {
        match (a.data, p.data) {
            (SlotsV::Ints(x), SlotsV::Ints(y)) => Ok(
                CiphertextV {
                    data: SlotsV::Ints(mul_ints(x, y, a.plain_modulus)),
                    budget: clamp_budget(a.budget as int - mul_plain_cost(ev)),
                    ..a
                },
            ),
            (SlotsV::Fixes(x), SlotsV::Fixes(y)) => {
                if (a.scale as int) * (p.scale as int) > SCALE_LIMIT as int {
                    Err(HeError::Operation(OperationIssue::RangeOverflow))
                } else if !mul_fixes_ok(x, y) {
                    Err(HeError::Operation(OperationIssue::RangeOverflow))
                } else {
                    Ok(
                        CiphertextV {
                            data: SlotsV::Fixes(mul_fixes(x, y)),
                            scale: (a.scale * p.scale) as u128,
                            budget: clamp_budget(a.budget as int - mul_plain_cost(ev)),
                            ..a
                        },
                    )
                }
            },
            _ => Err(HeError::Operation(OperationIssue::SchemeMismatch)),
        }
    }
}

/// The outcome of `relinearize`: a size-3 ciphertext is reduced to the
/// standard two components; a size-2 ciphertext is returned unchanged;
/// larger sizes exceed what standard relinearization keys cover.  Scale,
/// level and budget are unchanged.
pub open spec fn relinearize_spec(
    ev: ContextV,
    a: CiphertextV,
    k: crate::key_generator::KeyV,
) -> Result<CiphertextV, HeError> {
    if !key_wf(k, ev, KEY_TAG_RELIN) {
        Err(HeError::Operation(OperationIssue::KeyMismatch))
    } else if a.ct_size > 3 {
        Err(HeError::Operation(OperationIssue::SizeMismatch))
    } else if a.ct_size == 3 {
        Ok(CiphertextV { ct_size: 2, ..a })
    } else {
        Ok(a)
    }
}

/// A rotation amount normalized into `[0, n)`.
pub open spec fn norm_shift(n: int, shift: int) -> int {
    ((shift % n) + n) % n
}

/// A mantissa vector rotated cyclically left by `shift` slots.
pub open spec fn rot_fixes(s: Seq<i128>, shift: int) -> Seq<i128> {
    if s.len() == 0 {
        s
    } else {
        let k = norm_shift(s.len() as int, shift);
        Seq::new(
            s.len(),
            |i: int|
                if i + k < s.len() {
                    s[i + k]
                } else {
                    s[i + k - s.len()]
                },
        )
    }
}

/// A residue vector whose two halves are each rotated cyclically left by
/// `shift` slots.
pub open spec fn rot_ints_rows(s: Seq<u64>, shift: int) -> Seq<u64> {
    let h = s.len() as int / 2;
    if h == 0 {
        s
    } else {
        let k = norm_shift(h, shift);
        Seq::new(
            s.len(),
            |i: int|
                if i < h {
                    if i + k < h {
                        s[i + k]
                    } else {
                        s[i + k - h]
                    }
                } else {
                    if i + k < 2 * h {
                        s[i + k]
                    } else {
                        s[i + k - h]
                    }
                },
        )
    }
}

/// The outcome of `rotate`: a cyclic rotation of the encoded slots by
/// `shift` positions.  The fractional scheme rotates the full slot vector;
/// the integer scheme rotates each of the two batching rows.  Only a
/// standard-size ciphertext can be rotated.
pub open spec fn rotate_spec(
    ev: ContextV,
    a: CiphertextV,
    shift: i32,
    k: crate::key_generator::KeyV,
) -> Result<CiphertextV, HeError> {
    if !key_wf(k, ev, KEY_TAG_GALOIS) {
        Err(HeError::Operation(OperationIssue::KeyMismatch))
    } else if a.ct_size != 2 {
        Err(HeError::Operation(OperationIssue::SizeMismatch))
    } else {
        match a.data {
            SlotsV::Fixes(s) => Ok(
                CiphertextV { data: SlotsV::Fixes(rot_fixes(s, shift as int)), ..a },
            ),
            SlotsV::Ints(s) => {
                if s.len() != a.degree {
                    Err(HeError::Operation(OperationIssue::SizeMismatch))
                } else {
                    Ok(CiphertextV { data: SlotsV::Ints(rot_ints_rows(s, shift as int)), ..a })
                }
            },
        }
    }
}


/// The first chain level at or below `from` whose identity is `tid`.
pub open spec fn find_level(chain: Seq<ParmsId>, tid: ParmsId, from: int) -> Option<int>
    decreases chain.len() - from,
{
    if from < 0 || from >= chain.len() {
        None
    } else if chain[from] == tid {
        Some(from)
    } else {
        find_level(chain, tid, from + 1)
    }
}

/// The outcome of `mod_switch_to_next`: one chain level is dropped.  The
/// slot contents, size and scale are unchanged; the budget cannot exceed
/// the fresh budget of the narrower level.  At the lowest level the chain
/// is exhausted and the switch is refused.
pub open spec fn mod_switch_next_spec(ev: ContextV, a: CiphertextV) -> Result<
    CiphertextV,
    HeError,
> {
    if a.level as int + 1 >= ev.levels as int {
        Err(HeError::ChainExhausted)
    } else {
        Ok(
            CiphertextV {
                level: (a.level + 1) as usize,
                parms_id: ev.chain[a.level as int + 1],
                coeff_count: (a.coeff_count - 1) as usize,
                budget: min_budget(a.budget, clamp_budget(ev.fresh_budget(a.level as int + 1))),
                ..a
            },
        )
    }
}

/// A mantissa divided by a dropped prime, truncated toward zero.
pub open spec fn tdiv(m: i128, p: u64) -> i128 {
    if m >= 0 {
        ((m as int) / (p as int)) as i128
    } else {
        (-((-(m as int)) / (p as int))) as i128
    }
}

/// A mantissa vector divided by a dropped prime.
pub open spec fn rescale_fixes(s: Seq<i128>, p: u64) -> Seq<i128> {
    Seq::new(s.len(), |i: int| tdiv(s[i], p))
}

/// The outcome of `rescale_to_next`: one chain level is dropped and the
/// scale, together with every mantissa, is divided by the dropped prime's
/// value.  Only the fractional scheme rescales, and the scale must remain
/// at least one.
pub open spec fn rescale_next_spec(ev: ContextV, a: CiphertextV) -> Result<CiphertextV, HeError> {
    if !(a.data is Fixes) {
        Err(HeError::Operation(OperationIssue::SchemeMismatch))
    } else if a.level as int + 1 >= ev.levels as int {
        Err(HeError::ChainExhausted)
    } else {
        let p = ev.params.coeff[a.coeff_count as int - 1];
        if a.scale < p {
            Err(HeError::Operation(OperationIssue::RangeOverflow))
        } else {
            Ok(
                CiphertextV {
                    data: SlotsV::Fixes(rescale_fixes(a.data->Fixes_0, p)),
                    level: (a.level + 1) as usize,
                    parms_id: ev.chain[a.level as int + 1],
                    coeff_count: (a.coeff_count - 1) as usize,
                    scale: ((a.scale as int) / (p as int)) as u128,
                    budget: min_budget(
                        a.budget,
                        clamp_budget(ev.fresh_budget(a.level as int + 1)),
                    ),
                    ..a
                },
            )
        }
    }
}

/// The outcome of `mod_switch_to`: switching repeated until the identity
/// matches.  The target must name a descendant of the ciphertext's current
/// chain point.
pub open spec fn mod_switch_to_spec(ev: ContextV, a: CiphertextV, target: Seq<u64>) -> Result<
    CiphertextV,
    HeError,
> {
    if target.len() != 4 {
        Err(HeError::Operation(OperationIssue::ParmsMismatch))
    } else {
        let tid = ParmsId { w0: target[0], w1: target[1], w2: target[2], w3: target[3] };
        match find_level(ev.chain, tid, a.level as int) {
            None => Err(HeError::Operation(OperationIssue::ParmsMismatch)),
            Some(l) => Ok(
                CiphertextV {
                    level: l as usize,
                    parms_id: ev.chain[l],
                    coeff_count: (ev.data_count - l) as usize,
                    budget: min_budget(a.budget, clamp_budget(ev.fresh_budget(l))),
                    ..a
                },
            ),
        }
    }
}

/// The outcome of `mod_switch_to_next` on a plaintext: one chain level is
/// dropped; contents and scale are unchanged.  Only a plaintext bound to a
/// chain point can be switched.
pub open spec fn mod_switch_next_plain_spec(ev: ContextV, p: PlaintextV) -> Result<
    PlaintextV,
    HeError,
> {
    if !p.bound {
        Err(HeError::Operation(OperationIssue::ParmsMismatch))
    } else if p.level as int + 1 >= ev.levels as int {
        Err(HeError::ChainExhausted)
    } else {
        Ok(
            PlaintextV {
                level: (p.level + 1) as usize,
                parms_id: ev.chain[p.level as int + 1],
                ..p
            },
        )
    }
}

/// The outcome of `mod_switch_to` on a plaintext.
pub open spec fn mod_switch_to_plain_spec(ev: ContextV, p: PlaintextV, target: Seq<u64>) -> Result<
    PlaintextV,
    HeError,
> {
    if !p.bound || target.len() != 4 {
        Err(HeError::Operation(OperationIssue::ParmsMismatch))
    } else {
        let tid = ParmsId { w0: target[0], w1: target[1], w2: target[2], w3: target[3] };
        match find_level(ev.chain, tid, p.level as int) {
            None => Err(HeError::Operation(OperationIssue::ParmsMismatch)),
            Some(l) => Ok(PlaintextV { level: l as usize, parms_id: ev.chain[l], ..p }),
        }
    }
}

/// The outcome of `compact_size`: the ciphertext carried to the lowest
/// usable chain level by repeated modulus switching.
pub open spec fn compact_spec(ev: ContextV, a: CiphertextV) -> Result<CiphertextV, HeError> {
    if a.level as int == ev.levels as int - 1 {
        Ok(a)
    } else {
        Ok(
            CiphertextV {
                level: (ev.levels - 1) as usize,
                parms_id: ev.chain[ev.levels as int - 1],
                coeff_count: (ev.data_count - (ev.levels - 1)) as usize,
                budget: min_budget(
                    a.budget,
                    clamp_budget(ev.fresh_budget(ev.levels as int - 1)),
                ),
                ..a
            },
        )
    }
}

/// A first match below `l` characterizes the result of the level search.
proof fn lemma_find_some(chain: Seq<ParmsId>, tid: ParmsId, from: int, l: int)
    requires
        0 <= from <= l < chain.len(),
        chain[l] == tid,
        forall|k: int| from <= k < l ==> chain[k] != tid,
    ensures
        find_level(chain, tid, from) == Some(l),
    decreases l - from,
{
    if from < l {
        lemma_find_some(chain, tid, from + 1, l);
    }
}

/// No match at or below `from` makes the level search fail.
proof fn lemma_find_none(chain: Seq<ParmsId>, tid: ParmsId, from: int)
    requires
        0 <= from,
        forall|k: int| from <= k < chain.len() ==> chain[k] != tid,
    ensures
        find_level(chain, tid, from) is None,
    decreases chain.len() - from,
{
    if from < chain.len() {
        lemma_find_none(chain, tid, from + 1);
    }
}

/// The fresh budget never grows as the chain descends.
pub proof fn lemma_fresh_budget_mono(ev: ContextV, l1: int, l2: int)
    requires
        ev.wf(),
        0 <= l1 <= l2 < ev.levels as int,
    ensures
        ev.fresh_budget(l2) <= ev.fresh_budget(l1),
{
    let coeff = ev.params.coeff;
    let k1 = ev.data_count - l2;
    let k2 = ev.data_count - l1;
    lemma_sum_bits_prefix_mono(coeff, k1, k2);
}

/// The total bit length of a prefix never shrinks as the prefix grows.
pub proof fn lemma_sum_bits_prefix_mono(s: Seq<u64>, k1: int, k2: int)
    requires
        0 <= k1 <= k2 <= s.len(),
    ensures
        crate::context::sum_bits(s.take(k1)) <= crate::context::sum_bits(s.take(k2)),
    decreases k2 - k1,
{
    if k1 < k2 {
        lemma_sum_bits_prefix_mono(s, k1, k2 - 1);
        crate::context::lemma_sum_bits_snoc(s.take(k2 - 1), s[k2 - 1]);
        assert(s.take(k2) =~= s.take(k2 - 1).push(s[k2 - 1]));
    }
}

/// How an exec outcome realizes a specified outcome: equal error, or an
/// equal abstract value.
pub open spec fn outcome_ct(r: Result<Ciphertext, HeError>, s: Result<CiphertextV, HeError>) -> bool {
    match (r, s) {
        (Ok(c), Ok(v)) => c@ == v,
        (Err(e), Err(f)) => e == f,
        _ => false,
    }
}

/// How an exec plaintext outcome realizes a specified outcome.
pub open spec fn outcome_pt(r: Result<Plaintext, HeError>, s: Result<PlaintextV, HeError>) -> bool {
    match (r, s) {
        (Ok(p), Ok(v)) => p@ == v,
        (Err(e), Err(f)) => e == f,
        _ => false,
    }
}

/// Elementwise residue addition modulo `t`.
fn add_ints_vec(x: &Vec<u64>, y: &Vec<u64>, t: u64) -> (r: Vec<u64>)
    requires
        t >= 1,
    ensures
        r@ == add_ints(x@, y@, t),
{
    let n = if x.len() >= y.len() {
        x.len()
    } else {
        y.len()
    };
    let mut v: Vec<u64> = Vec::new();
    let mut i: usize = 0;
    while i < n
        invariant
            i <= n,
            t >= 1,
            n == max_len(x@.len() as int, y@.len() as int),
            v@.len() == i,
            forall|j: int| 0 <= j < i ==> v@[j] == add_ints(x@, y@, t)[j],
        decreases n - i,
    {
        let a: u64 = if i < x.len() {
            x[i]
        } else {
            0
        };
        let b: u64 = if i < y.len() {
            y[i]
        } else {
            0
        };
        let sum: u128 = (a as u128) + (b as u128);
        let red: u64 = (sum % (t as u128)) as u64;
        v.push(red);
        i = i + 1;
    }
    proof {
        assert(v@ =~= add_ints(x@, y@, t));
    }
    v
}

/// Elementwise residue multiplication modulo `t`.
fn mul_ints_vec(x: &Vec<u64>, y: &Vec<u64>, t: u64) -> (r: Vec<u64>)
    requires
        t >= 1,
    ensures
        r@ == mul_ints(x@, y@, t),
{
    let n = if x.len() >= y.len() {
        x.len()
    } else {
        y.len()
    };
    let mut v: Vec<u64> = Vec::new();
    let mut i: usize = 0;
    while i < n
        invariant
            i <= n,
            t >= 1,
            n == max_len(x@.len() as int, y@.len() as int),
            v@.len() == i,
            forall|j: int| 0 <= j < i ==> v@[j] == mul_ints(x@, y@, t)[j],
        decreases n - i,
    {
        let a: u64 = if i < x.len() {
            x[i]
        } else {
            0
        };
        let b: u64 = if i < y.len() {
            y[i]
        } else {
            0
        };
        proof {
            assert((a as u128) * (b as u128) <= 0xFFFF_FFFF_FFFF_FFFFu128
                * 0xFFFF_FFFF_FFFF_FFFFu128) by (nonlinear_arith)
                requires
                    a <= 0xFFFF_FFFF_FFFF_FFFFu64,
                    b <= 0xFFFF_FFFF_FFFF_FFFFu64,
            ;
        }
        let prod: u128 = (a as u128) * (b as u128);
        let red: u64 = (prod % (t as u128)) as u64;
        v.push(red);
        i = i + 1;
    }
    proof {
        assert(v@ =~= mul_ints(x@, y@, t));
    }
    v
}

/// Elementwise mantissa addition; refuses sums outside the working range.
fn add_fixes_vec(x: &Vec<i128>, y: &Vec<i128>) -> (r: Result<Vec<i128>, ()>)
    requires
        fixes_bounded(x@),
        fixes_bounded(y@),
    ensures
        match r {
            Ok(v) => add_fixes_ok(x@, y@) && v@ == add_fixes(x@, y@),
            Err(()) => !add_fixes_ok(x@, y@),
        },
{
    let n = if x.len() >= y.len() {
        x.len()
    } else {
        y.len()
    };
    let mut v: Vec<i128> = Vec::new();
    let mut i: usize = 0;
    while i < n
        invariant
            i <= n,
            fixes_bounded(x@),
            fixes_bounded(y@),
            n == max_len(x@.len() as int, y@.len() as int),
            v@.len() == i,
            forall|j: int|
                0 <= j < i ==> -MANT_LIMIT as int <= #[trigger] getz_i128(x@, j) + getz_i128(
                    y@,
                    j,
                ) <= MANT_LIMIT as int,
            forall|j: int| 0 <= j < i ==> v@[j] == add_fixes(x@, y@)[j],
        decreases n - i,
    {
        let a: i128 = if i < x.len() {
            x[i]
        } else {
            0
        };
        let b: i128 = if i < y.len() {
            y[i]
        } else {
            0
        };
        let sum: i128 = a + b;
        if sum < -MANT_LIMIT || sum > MANT_LIMIT {
            proof {
                assert(!(-MANT_LIMIT as int <= getz_i128(x@, i as int) + getz_i128(y@, i as int)
                    <= MANT_LIMIT as int));
            }
            return Err(());
        }
        v.push(sum);
        i = i + 1;
    }
    proof {
        assert(v@ =~= add_fixes(x@, y@));
    }
    Ok(v)
}

/// Elementwise mantissa multiplication; refuses products outside the
/// working range.
fn mul_fixes_vec(x: &Vec<i128>, y: &Vec<i128>) -> (r: Result<Vec<i128>, ()>)
    ensures
        match r {
            Ok(v) => mul_fixes_ok(x@, y@) && v@ == mul_fixes(x@, y@),
            Err(()) => !mul_fixes_ok(x@, y@),
        },
{
    let n = if x.len() >= y.len() {
        x.len()
    } else {
        y.len()
    };
    let mut v: Vec<i128> = Vec::new();
    let mut i: usize = 0;
    while i < n
        invariant
            i <= n,
            n == max_len(x@.len() as int, y@.len() as int),
            v@.len() == i,
            forall|j: int|
                0 <= j < i ==> -MANT_LIMIT as int <= (#[trigger] getz_i128(x@, j) as int) * (
                getz_i128(y@, j) as int) <= MANT_LIMIT as int,
            forall|j: int| 0 <= j < i ==> v@[j] == mul_fixes(x@, y@)[j],
        decreases n - i,
    {
        let a: i128 = if i < x.len() {
            x[i]
        } else {
            0
        };
        let b: i128 = if i < y.len() {
            y[i]
        } else {
            0
        };
        let prod: i128 = match a.checked_mul(b) {
            Some(p) => p,
            None => {
                proof {
                    assert(!(-MANT_LIMIT as int <= (getz_i128(x@, i as int) as int) * (
                    getz_i128(y@, i as int) as int) <= MANT_LIMIT as int));
                }
                return Err(());
            },
        };
        if prod < -MANT_LIMIT || prod > MANT_LIMIT {
            proof {
                assert(!(-MANT_LIMIT as int <= (getz_i128(x@, i as int) as int) * (getz_i128(
                    y@,
                    i as int,
                ) as int) <= MANT_LIMIT as int));
            }
            return Err(());
        }
        v.push(prod);
        i = i + 1;
    }
    proof {
        assert(v@ =~= mul_fixes(x@, y@));
    }
    Ok(v)
}

/// The rotation amount normalized into `[0, n)`.
fn norm_shift_exec(n: usize, shift: i32) -> (r: usize)
    requires
        1 <= n <= 65536,
    ensures
        r as int == norm_shift(n as int, shift as int),
        r < n,
{
    let n64: u64 = n as u64;
    if shift >= 0 {
        let m: u64 = (shift as u64) % n64;
        proof {
            vstd::arithmetic::div_mod::lemma_mod_bound(shift as int, n as int);
            vstd::arithmetic::div_mod::lemma_mod_twice(shift as int, n as int);
            vstd::arithmetic::div_mod::lemma_small_mod(
                ((shift as int) % (n as int) + n) as nat % (n as nat),
                n as nat,
            );
            vstd::arithmetic::div_mod::lemma_mod_add_multiples_vanish(
                (shift as int) % (n as int),
                n as int,
            );
        }
        m as usize
    } else {
        let x: u64 = (-(shift as i64)) as u64;
        let m: u64 = x % n64;
        let k: u64 = if m == 0 {
            0
        } else {
            n64 - m
        };
        proof {
            let ni = n as int;
            let xi = x as int;
            vstd::arithmetic::div_mod::lemma_mod_bound(xi, ni);
            vstd::arithmetic::div_mod::lemma_fundamental_div_mod(xi, ni);
            let q = xi / ni;
            if m == 0 {
                assert((-q) * ni + 0 == -(ni * q)) by (nonlinear_arith);
                vstd::arithmetic::div_mod::lemma_fundamental_div_mod_converse(
                    -xi,
                    ni,
                    -q,
                    0,
                );
            } else {
                assert((-q - 1) * ni + (ni - (m as int)) == -(ni * q) - (m as int))
                    by (nonlinear_arith);
                vstd::arithmetic::div_mod::lemma_fundamental_div_mod_converse(
                    -xi,
                    ni,
                    -q - 1,
                    ni - (m as int),
                );
            }
            vstd::arithmetic::div_mod::lemma_mod_add_multiples_vanish((-xi) % ni, ni);
            vstd::arithmetic::div_mod::lemma_small_mod((k as int) as nat, n as nat);
        }
        k as usize
    }
}

/// A mantissa vector rotated cyclically left by `shift` slots.
fn rot_fixes_vec(s: &Vec<i128>, shift: i32) -> (r: Vec<i128>)
    requires
        s@.len() <= 65536,
    ensures
        r@ == rot_fixes(s@, shift as int),
{
    let n = s.len();
    if n == 0 {
        return Vec::new();
    }
    let k = norm_shift_exec(n, shift);
    let mut v: Vec<i128> = Vec::new();
    let mut i: usize = 0;
    while i < n
        invariant
            i <= n == s@.len(),
            1 <= n <= 65536,
            k as int == norm_shift(n as int, shift as int),
            k < n,
            v@.len() == i,
            forall|j: int| 0 <= j < i ==> v@[j] == rot_fixes(s@, shift as int)[j],
        decreases n - i,
    {
        let j = if i + k < n {
            i + k
        } else {
            i + k - n
        };
        v.push(s[j]);
        i = i + 1;
    }
    proof {
        assert(v@ =~= rot_fixes(s@, shift as int));
    }
    v
}

/// A residue vector whose two halves are each rotated cyclically left by
/// `shift` slots.
fn rot_ints_rows_vec(s: &Vec<u64>, shift: i32) -> (r: Vec<u64>)
    requires
        s@.len() <= 65536,
        s@.len() % 2 == 0,
    ensures
        r@ == rot_ints_rows(s@, shift as int),
{
    let n = s.len();
    let h = n / 2;
    if h == 0 {
        return Vec::new();
    }
    let k = norm_shift_exec(h, shift);
    let mut v: Vec<u64> = Vec::new();
    let mut i: usize = 0;
    while i < n
        invariant
            i <= n == s@.len(),
            n <= 65536,
            n % 2 == 0,
            h == n / 2,
            1 <= h,
            k as int == norm_shift(h as int, shift as int),
            k < h,
            v@.len() == i,
            forall|j: int| 0 <= j < i ==> v@[j] == rot_ints_rows(s@, shift as int)[j],
        decreases n - i,
    {
        let j = if i < h {
            if i + k < h {
                i + k
            } else {
                i + k - h
            }
        } else {
            if i + k < n {
                i + k
            } else {
                i + k - h
            }
        };
        v.push(s[j]);
        i = i + 1;
    }
    proof {
        assert(v@ =~= rot_ints_rows(s@, shift as int));
    }
    v
}

/// Whether a plaintext is identically zero.
fn zero_plain_exec(d: &SlotData) -> (r: bool)
    ensures
        r == zero_plain(d@),
{
    match d {
        SlotData::Ints(s) => {
            let mut i: usize = 0;
            while i < s.len()
                invariant
                    i <= s@.len(),
                    d@ == SlotsV::Ints(s@),
                    forall|j: int| 0 <= j < i ==> #[trigger] s@[j] == 0,
                decreases s@.len() - i,
            {
                if s[i] != 0 {
                    proof {
                        assert(d@->Ints_0[i as int] != 0);
                        assert(!zero_plain(d@));
                    }
                    return false;
                }
                i = i + 1;
            }
            true
        },
        SlotData::Fixes(s) => {
            let mut i: usize = 0;
            while i < s.len()
                invariant
                    i <= s@.len(),
                    d@ == SlotsV::Fixes(s@),
                    forall|j: int| 0 <= j < i ==> #[trigger] s@[j] == 0,
                decreases s@.len() - i,
            {
                if s[i] != 0 {
                    proof {
                        assert(d@->Fixes_0[i as int] != 0);
                        assert(!zero_plain(d@));
                    }
                    return false;
                }
                i = i + 1;
            }
            true
        },
    }
}

/// The operation set over ciphertexts and plaintexts, bound to one context.
pub struct Evaluator {
    /// The context whose chain the evaluator enforces.
    pub ctx: Context,
}

impl Evaluator {
    /// Creates an evaluator for a context.
    pub fn create(context: &Context) -> (r: Result<Evaluator, HeError>)
        requires
            context@.wf(),
        ensures
            match r {
                Ok(e) => e.ctx@ == context@ && e.ctx@.wf(),
                Err(_) => false,
            },
    {
        Ok(Evaluator { ctx: context.duplicate() })
    }

    /// Adds two ciphertexts.  The operands must carry identical parameter
    /// identities and, for the fractional scheme, identical scales; the
    /// output keeps the first operand's chain point and scale, the larger
    /// size, and the smaller noise budget.
    pub fn add(&self, cipher_text_a: &Ciphertext, cipher_text_b: &Ciphertext) -> (r: Result<
        Ciphertext,
        HeError,
    >)
        requires
            self.ctx@.wf(),
            cipher_text_a@.wf(),
            cipher_text_a@.ok_for(self.ctx@),
            cipher_text_b@.wf(),
            cipher_text_b@.ok_for(self.ctx@),
        ensures
            outcome_ct(r, add_spec(self.ctx@, cipher_text_a@, cipher_text_b@)),
            r is Ok ==> r->Ok_0@.wf() && r->Ok_0@.ok_for(self.ctx@),
    {
        let a = cipher_text_a;
        let b = cipher_text_b;
        if a.level != b.level || !(a.parms_id.w0 == b.parms_id.w0 && a.parms_id.w1
            == b.parms_id.w1 && a.parms_id.w2 == b.parms_id.w2 && a.parms_id.w3
            == b.parms_id.w3) {
            return Err(HeError::Operation(OperationIssue::ParmsMismatch));
        }
        let size: usize = if a.ct_size >= b.ct_size {
            a.ct_size
        } else {
            b.ct_size
        };
        let budget = if a.budget <= b.budget {
            a.budget
        } else {
            b.budget
        };
        match (&a.data, &b.data) {
            (SlotData::Ints(x), SlotData::Ints(y)) => {
                let data = add_ints_vec(x, y, a.plain_modulus);
                let c = Ciphertext {
                    data: SlotData::Ints(data),
                    ct_size: size,
                    level: a.level,
                    parms_id: a.parms_id,
                    scale: a.scale,
                    budget,
                    degree: a.degree,
                    coeff_count: a.coeff_count,
                    plain_modulus: a.plain_modulus,
                    scheme: a.scheme,
                    pool: a.pool,
                };
                Ok(c)
            },
            (SlotData::Fixes(x), SlotData::Fixes(y)) => {
                if a.scale != b.scale {
                    return Err(HeError::Operation(OperationIssue::ScaleMismatch));
                }
                let data = match add_fixes_vec(x, y) {
                    Err(()) => {
                        return Err(HeError::Operation(OperationIssue::RangeOverflow));
                    },
                    Ok(v) => v,
                };
                let c = Ciphertext {
                    data: SlotData::Fixes(data),
                    ct_size: size,
                    level: a.level,
                    parms_id: a.parms_id,
                    scale: a.scale,
                    budget,
                    degree: a.degree,
                    coeff_count: a.coeff_count,
                    plain_modulus: a.plain_modulus,
                    scheme: a.scheme,
                    pool: a.pool,
                };
                Ok(c)
            },
            _ => Err(HeError::Operation(OperationIssue::SchemeMismatch)),
        }
    }

    /// Adds a plaintext to a ciphertext.  A bound plaintext must carry the
    /// ciphertext's parameter identity; size and budget are unchanged.
    pub fn add_plain(&self, cipher_text_a: &Ciphertext, plain_text_b: &Plaintext) -> (r: Result<
        Ciphertext,
        HeError,
    >)
        requires
            self.ctx@.wf(),
            cipher_text_a@.wf(),
            cipher_text_a@.ok_for(self.ctx@),
            plain_text_b@.wf(),
        ensures
            outcome_ct(r, add_plain_spec(self.ctx@, cipher_text_a@, plain_text_b@)),
            r is Ok ==> r->Ok_0@.wf() && r->Ok_0@.ok_for(self.ctx@),
    {
        let a = cipher_text_a;
        let p = plain_text_b;
        if p.bound {
            if a.level != p.level || !(a.parms_id.w0 == p.parms_id.w0 && a.parms_id.w1
                == p.parms_id.w1 && a.parms_id.w2 == p.parms_id.w2 && a.parms_id.w3
                == p.parms_id.w3) {
                return Err(HeError::Operation(OperationIssue::ParmsMismatch));
            }
        }
        let plen = match &p.data {
            SlotData::Ints(y) => y.len(),
            SlotData::Fixes(y) => y.len(),
        };
        let alen = match &a.data {
            SlotData::Ints(x) => x.len(),
            SlotData::Fixes(x) => x.len(),
        };
        if plen > alen {
            return Err(HeError::Operation(OperationIssue::SizeMismatch));
        }
        match (&a.data, &p.data) {
            (SlotData::Ints(x), SlotData::Ints(y)) => {
                let data = add_ints_vec(x, y, a.plain_modulus);
                let c = Ciphertext {
                    data: SlotData::Ints(data),
                    ct_size: a.ct_size,
                    level: a.level,
                    parms_id: a.parms_id,
                    scale: a.scale,
                    budget: a.budget,
                    degree: a.degree,
                    coeff_count: a.coeff_count,
                    plain_modulus: a.plain_modulus,
                    scheme: a.scheme,
                    pool: a.pool,
                };
                Ok(c)
            },
            (SlotData::Fixes(x), SlotData::Fixes(y)) => {
                if a.scale != p.scale {
                    return Err(HeError::Operation(OperationIssue::ScaleMismatch));
                }
                let data = match add_fixes_vec(x, y) {
                    Err(()) => {
                        return Err(HeError::Operation(OperationIssue::RangeOverflow));
                    },
                    Ok(v) => v,
                };
                let c = Ciphertext {
                    data: SlotData::Fixes(data),
                    ct_size: a.ct_size,
                    level: a.level,
                    parms_id: a.parms_id,
                    scale: a.scale,
                    budget: a.budget,
                    degree: a.degree,
                    coeff_count: a.coeff_count,
                    plain_modulus: a.plain_modulus,
                    scheme: a.scheme,
                    pool: a.pool,
                };
                Ok(c)
            },
            _ => Err(HeError::Operation(OperationIssue::SchemeMismatch)),
        }
    }

    /// Multiplies two ciphertexts.  The operands must carry identical
    /// parameter identities; the output size is the sum of the input sizes
    /// less one, the scale is the product of the scales, and the result is
    /// not rescaled automatically.
    pub fn mul(&self, cipher_text_a: &Ciphertext, cipher_text_b: &Ciphertext) -> (r: Result<
        Ciphertext,
        HeError,
    >)
        requires
            self.ctx@.wf(),
            cipher_text_a@.wf(),
            cipher_text_a@.ok_for(self.ctx@),
            cipher_text_b@.wf(),
            cipher_text_b@.ok_for(self.ctx@),
        ensures
            outcome_ct(r, mul_spec(self.ctx@, cipher_text_a@, cipher_text_b@)),
            r is Ok ==> r->Ok_0@.wf() && r->Ok_0@.ok_for(self.ctx@),
    {
        let a = cipher_text_a;
        let b = cipher_text_b;
        if a.level != b.level || !(a.parms_id.w0 == b.parms_id.w0 && a.parms_id.w1
            == b.parms_id.w1 && a.parms_id.w2 == b.parms_id.w2 && a.parms_id.w3
            == b.parms_id.w3) {
            return Err(HeError::Operation(OperationIssue::ParmsMismatch));
        }
        if a.ct_size + b.ct_size - 1 > CT_SIZE_MAX {
            return Err(HeError::Operation(OperationIssue::SizeMismatch));
        }
        let size: usize = a.ct_size + b.ct_size - 1;
        let budget = self.mul_budget(if a.budget <= b.budget {
            a.budget
        } else {
            b.budget
        });
        match (&a.data, &b.data) {
            (SlotData::Ints(x), SlotData::Ints(y)) => {
                let data = mul_ints_vec(x, y, a.plain_modulus);
                proof {
                    let d = mul_ints(x@, y@, a@.plain_modulus);
                    assert forall|i: int| 0 <= i < d.len() implies #[trigger] d[i]
                        < a@.plain_modulus by {
                        vstd::arithmetic::div_mod::lemma_mod_bound(
                            (getz_u64(x@, i) as int) * (getz_u64(y@, i) as int),
                            a@.plain_modulus as int,
                        );
                    }
                }
                Ok(
                    Ciphertext {
                        data: SlotData::Ints(data),
                        ct_size: size,
                        level: a.level,
                        parms_id: a.parms_id,
                        scale: a.scale,
                        budget,
                        degree: a.degree,
                        coeff_count: a.coeff_count,
                        plain_modulus: a.plain_modulus,
                        scheme: a.scheme,
                        pool: a.pool,
                    },
                )
            },
            (SlotData::Fixes(x), SlotData::Fixes(y)) => {
                let scale = match a.scale.checked_mul(b.scale) {
                    None => {
                        proof {
                            assert((a@.scale as int) * (b@.scale as int)
                                > SCALE_LIMIT as int) by (nonlinear_arith)
                                requires
                                    (a@.scale as int) * (b@.scale as int)
                                        > 0xFFFF_FFFF_FFFF_FFFF_FFFF_FFFF_FFFF_FFFFu128 as int,
                            ;
                        }
                        return Err(HeError::Operation(OperationIssue::RangeOverflow));
                    },
                    Some(p) => p,
                };
                if scale > SCALE_LIMIT {
                    return Err(HeError::Operation(OperationIssue::RangeOverflow));
                }
                let data = match mul_fixes_vec(x, y) {
                    Err(()) => {
                        return Err(HeError::Operation(OperationIssue::RangeOverflow));
                    },
                    Ok(v) => v,
                };
                proof {
                    assert((a@.scale as int) * (b@.scale as int) >= 1) by (nonlinear_arith)
                        requires
                            a@.scale >= 1,
                            b@.scale >= 1,
                    ;
                    let d = mul_fixes(x@, y@);
                    assert forall|i: int| 0 <= i < d.len() implies -MANT_LIMIT
                        <= #[trigger] d[i] <= MANT_LIMIT by {
                        assert(-MANT_LIMIT as int <= (getz_i128(x@, i) as int) * (getz_i128(
                            y@,
                            i,
                        ) as int) <= MANT_LIMIT as int);
                    }
                }
                Ok(
                    Ciphertext {
                        data: SlotData::Fixes(data),
                        ct_size: size,
                        level: a.level,
                        parms_id: a.parms_id,
                        scale,
                        budget,
                        degree: a.degree,
                        coeff_count: a.coeff_count,
                        plain_modulus: a.plain_modulus,
                        scheme: a.scheme,
                        pool: a.pool,
                    },
                )
            },
            _ => Err(HeError::Operation(OperationIssue::SchemeMismatch)),
        }
    }

    /// Multiplies a ciphertext by a plaintext.  An identically zero
    /// plaintext operand is refused with the distinguished
    /// transparent-ciphertext condition: the result would decrypt without
    /// the secret key.  The size is unchanged; the scale is the product of
    /// the scales.
    pub fn mul_plain(&self, cipher_text_a: &Ciphertext, plain_text_b: &Plaintext) -> (r: Result<
        Ciphertext,
        HeError,
    >)
        requires
            self.ctx@.wf(),
            cipher_text_a@.wf(),
            cipher_text_a@.ok_for(self.ctx@),
            plain_text_b@.wf(),
        ensures
            outcome_ct(r, mul_plain_spec(self.ctx@, cipher_text_a@, plain_text_b@)),
            r is Ok ==> r->Ok_0@.wf() && r->Ok_0@.ok_for(self.ctx@),
    {
        let a = cipher_text_a;
        let p = plain_text_b;
        if p.bound {
            if a.level != p.level || !(a.parms_id.w0 == p.parms_id.w0 && a.parms_id.w1
                == p.parms_id.w1 && a.parms_id.w2 == p.parms_id.w2 && a.parms_id.w3
                == p.parms_id.w3) {
                return Err(HeError::Operation(OperationIssue::ParmsMismatch));
            }
        }
        if zero_plain_exec(&p.data) {
            return Err(HeError::TransparentCiphertext);
        }
        let plen = match &p.data {
            SlotData::Ints(y) => y.len(),
            SlotData::Fixes(y) => y.len(),
        };
        let alen = match &a.data {
            SlotData::Ints(x) => x.len(),
            SlotData::Fixes(x) => x.len(),
        };
        if plen > alen {
            return Err(HeError::Operation(OperationIssue::SizeMismatch));
        }
        let budget = self.mul_plain_budget(a.budget);
        match (&a.data, &p.data) {
            (SlotData::Ints(x), SlotData::Ints(y)) => {
                let data = mul_ints_vec(x, y, a.plain_modulus);
                proof {
                    let d = mul_ints(x@, y@, a@.plain_modulus);
                    assert forall|i: int| 0 <= i < d.len() implies #[trigger] d[i]
                        < a@.plain_modulus by {
                        vstd::arithmetic::div_mod::lemma_mod_bound(
                            (getz_u64(x@, i) as int) * (getz_u64(y@, i) as int),
                            a@.plain_modulus as int,
                        );
                    }
                }
                Ok(
                    Ciphertext {
                        data: SlotData::Ints(data),
                        ct_size: a.ct_size,
                        level: a.level,
                        parms_id: a.parms_id,
                        scale: a.scale,
                        budget,
                        degree: a.degree,
                        coeff_count: a.coeff_count,
                        plain_modulus: a.plain_modulus,
                        scheme: a.scheme,
                        pool: a.pool,
                    },
                )
            },
            (SlotData::Fixes(x), SlotData::Fixes(y)) => {
                let scale = match a.scale.checked_mul(p.scale) {
                    None => {
                        proof {
                            assert((a@.scale as int) * (p@.scale as int)
                                > SCALE_LIMIT as int) by (nonlinear_arith)
                                requires
                                    (a@.scale as int) * (p@.scale as int)
                                        > 0xFFFF_FFFF_FFFF_FFFF_FFFF_FFFF_FFFF_FFFFu128 as int,
                            ;
                        }
                        return Err(HeError::Operation(OperationIssue::RangeOverflow));
                    },
                    Some(s) => s,
                };
                if scale > SCALE_LIMIT {
                    return Err(HeError::Operation(OperationIssue::RangeOverflow));
                }
                let data = match mul_fixes_vec(x, y) {
                    Err(()) => {
                        return Err(HeError::Operation(OperationIssue::RangeOverflow));
                    },
                    Ok(v) => v,
                };
                proof {
                    assert((a@.scale as int) * (p@.scale as int) >= 1) by (nonlinear_arith)
                        requires
                            a@.scale >= 1,
                            p@.scale >= 1,
                    ;
                    let d = mul_fixes(x@, y@);
                    assert forall|i: int| 0 <= i < d.len() implies -MANT_LIMIT
                        <= #[trigger] d[i] <= MANT_LIMIT by {
                        assert(-MANT_LIMIT as int <= (getz_i128(x@, i) as int) * (getz_i128(
                            y@,
                            i,
                        ) as int) <= MANT_LIMIT as int);
                    }
                }
                Ok(
                    Ciphertext {
                        data: SlotData::Fixes(data),
                        ct_size: a.ct_size,
                        level: a.level,
                        parms_id: a.parms_id,
                        scale,
                        budget,
                        degree: a.degree,
                        coeff_count: a.coeff_count,
                        plain_modulus: a.plain_modulus,
                        scheme: a.scheme,
                        pool: a.pool,
                    },
                )
            },
            _ => Err(HeError::Operation(OperationIssue::SchemeMismatch)),
        }
    }

    /// Squares a ciphertext: equivalent to multiplying it with itself.
    pub fn square(&self, cipher_text: &Ciphertext) -> (r: Result<Ciphertext, HeError>)
        requires
            self.ctx@.wf(),
            cipher_text@.wf(),
            cipher_text@.ok_for(self.ctx@),
        ensures
            outcome_ct(r, mul_spec(self.ctx@, cipher_text@, cipher_text@)),
            r is Ok ==> r->Ok_0@.wf() && r->Ok_0@.ok_for(self.ctx@),
    {
        self.mul(cipher_text, cipher_text)
    }

    /// Relinearizes a ciphertext: a size-3 ciphertext is reduced back to
    /// the standard two components, as required before a second
    /// multiplication; a standard-size input is returned unchanged.  The
    /// keys must belong to the evaluator's chain.
    pub fn relinearize(
        &self,
        cipher_text_a: &Ciphertext,
        relinearization_keys: &RelinearizationKeys,
    ) -> (r: Result<Ciphertext, HeError>)
        requires
            self.ctx@.wf(),
            cipher_text_a@.wf(),
            cipher_text_a@.ok_for(self.ctx@),
        ensures
            outcome_ct(
                r,
                relinearize_spec(self.ctx@, cipher_text_a@, relinearization_keys@),
            ),
            r is Ok ==> r->Ok_0@.wf() && r->Ok_0@.ok_for(self.ctx@),
    {
        if !crate::encryptor::key_matches(
            &self.ctx,
            &relinearization_keys.parms_id,
            &relinearization_keys.material,
            KEY_TAG_RELIN,
        ) {
            return Err(HeError::Operation(OperationIssue::KeyMismatch));
        }
        if cipher_text_a.ct_size > 3 {
            return Err(HeError::Operation(OperationIssue::SizeMismatch));
        }
        let mut c = cipher_text_a.clone()?;
        if c.ct_size == 3 {
            c.ct_size = 2;
        }
        Ok(c)
    }

    /// Rotates the encoded slots of a standard-size ciphertext cyclically
    /// by `shift` positions.  The Galois keys must belong to the
    /// evaluator's chain.
    pub fn rotate(&self, cipher_text: &Ciphertext, shift: i32, galois_keys: &GaloisKeys) -> (r:
        Result<Ciphertext, HeError>)
        requires
            self.ctx@.wf(),
            cipher_text@.wf(),
            cipher_text@.ok_for(self.ctx@),
        ensures
            outcome_ct(r, rotate_spec(self.ctx@, cipher_text@, shift, galois_keys@)),
            r is Ok ==> r->Ok_0@.wf() && r->Ok_0@.ok_for(self.ctx@),
    {
        if !crate::encryptor::key_matches(
            &self.ctx,
            &galois_keys.parms_id,
            &galois_keys.material,
            KEY_TAG_GALOIS,
        ) {
            return Err(HeError::Operation(OperationIssue::KeyMismatch));
        }
        let a = cipher_text;
        if a.ct_size != 2 {
            return Err(HeError::Operation(OperationIssue::SizeMismatch));
        }
        match &a.data {
            SlotData::Fixes(s) => {
                let data = rot_fixes_vec(s, shift);
                Ok(
                    Ciphertext {
                        data: SlotData::Fixes(data),
                        ct_size: a.ct_size,
                        level: a.level,
                        parms_id: a.parms_id,
                        scale: a.scale,
                        budget: a.budget,
                        degree: a.degree,
                        coeff_count: a.coeff_count,
                        plain_modulus: a.plain_modulus,
                        scheme: a.scheme,
                        pool: a.pool,
                    },
                )
            },
            SlotData::Ints(s) => {
                if s.len() != a.degree {
                    return Err(HeError::Operation(OperationIssue::SizeMismatch));
                }
                let data = rot_ints_rows_vec(s, shift);
                Ok(
                    Ciphertext {
                        data: SlotData::Ints(data),
                        ct_size: a.ct_size,
                        level: a.level,
                        parms_id: a.parms_id,
                        scale: a.scale,
                        budget: a.budget,
                        degree: a.degree,
                        coeff_count: a.coeff_count,
                        plain_modulus: a.plain_modulus,
                        scheme: a.scheme,
                        pool: a.pool,
                    },
                )
            },
        }
    }

    /// The budget left after a ciphertext multiplication, clamped to the
    /// tracked range.
    fn mul_budget(&self, b: i64) -> (r: i64)
        requires
            self.ctx@.wf(),
            -BUDGET_MAX <= b <= BUDGET_MAX,
        ensures
            r == clamp_budget(b as int - mul_cost(self.ctx@)),
    {
        let tbits = bit_length(self.ctx.params.plain_modulus);
        let dbits = bit_length(self.ctx.params.poly_modulus_degree as u64);
        proof {
            crate::small_modulus::lemma_bitlen_pos(self.ctx@.params.degree as nat);
        }
        let cost: i64 = tbits as i64 + dbits as i64 - 1;
        let x = b - cost;
        if x < -BUDGET_MAX {
            -BUDGET_MAX
        } else {
            x
        }
    }

    /// The budget left after a plaintext multiplication, clamped to the
    /// tracked range.
    fn mul_plain_budget(&self, b: i64) -> (r: i64)
        requires
            self.ctx@.wf(),
            -BUDGET_MAX <= b <= BUDGET_MAX,
        ensures
            r == clamp_budget(b as int - mul_plain_cost(self.ctx@)),
    {
        let tbits = bit_length(self.ctx.params.plain_modulus);
        let x = b - tbits as i64;
        if x < -BUDGET_MAX {
            -BUDGET_MAX
        } else {
            x
        }
    }

    /// Switches a ciphertext one level down the modulus-switching chain.
    /// The ciphertext shrinks by one prime; contents, size and scale are
    /// unchanged.  At the lowest level the chain is exhausted and the
    /// switch is refused rather than producing a degenerate object.
    pub fn mod_switch_to_next(&self, cipher_text: &Ciphertext) -> (r: Result<Ciphertext, HeError>)
        requires
            self.ctx@.wf(),
            cipher_text@.wf(),
            cipher_text@.ok_for(self.ctx@),
        ensures
            outcome_ct(r, mod_switch_next_spec(self.ctx@, cipher_text@)),
            r is Ok ==> r->Ok_0@.wf() && r->Ok_0@.ok_for(self.ctx@),
    {
        let a = cipher_text;
        if a.level + 1 >= self.ctx.levels {
            return Err(HeError::ChainExhausted);
        }
        let budget = self.level_capped_budget(a.budget, a.level + 1);
        let mut c = a.clone()?;
        c.level = a.level + 1;
        c.parms_id = self.ctx.chain_ids[a.level + 1];
        c.coeff_count = a.coeff_count - 1;
        c.budget = budget;
        Ok(c)
    }

    /// Switches a bound plaintext one level down the chain; contents and
    /// scale are unchanged.
    pub fn mod_switch_to_next_plain_text(&self, plain_text: &Plaintext) -> (r: Result<
        Plaintext,
        HeError,
    >)
        requires
            self.ctx@.wf(),
            plain_text@.wf(),
            plain_text@.ok_for(self.ctx@),
        ensures
            outcome_pt(r, mod_switch_next_plain_spec(self.ctx@, plain_text@)),
            r is Ok ==> r->Ok_0@.wf() && r->Ok_0@.ok_for(self.ctx@),
    {
        let p = plain_text;
        if !p.bound {
            return Err(HeError::Operation(OperationIssue::ParmsMismatch));
        }
        if p.level + 1 >= self.ctx.levels {
            return Err(HeError::ChainExhausted);
        }
        let mut q = p.clone()?;
        q.level = p.level + 1;
        q.parms_id = self.ctx.chain_ids[p.level + 1];
        Ok(q)
    }

    /// Shrinks a ciphertext by switching it down the chain as far as it
    /// goes, trading noise budget for serialized size.  The result sits at
    /// the lowest usable level; a caller must not do this to a ciphertext
    /// that still needs further homomorphic work.
    pub fn compact_size(&self, cipher_text: &Ciphertext) -> (r: Result<Ciphertext, HeError>)
        requires
            self.ctx@.wf(),
            cipher_text@.wf(),
            cipher_text@.ok_for(self.ctx@),
        ensures
            outcome_ct(r, compact_spec(self.ctx@, cipher_text@)),
            r is Ok ==> r->Ok_0@.wf() && r->Ok_0@.ok_for(self.ctx@),
    {
        let mut ct = cipher_text.clone()?;
        while ct.level + 1 < self.ctx.levels
            invariant
                self.ctx@.wf(),
                ct@.wf(),
                ct@.ok_for(self.ctx@),
                cipher_text@.level <= ct@.level,
                ct@ == if ct@.level == cipher_text@.level {
                    cipher_text@
                } else {
                    CiphertextV {
                        level: ct@.level,
                        parms_id: self.ctx@.chain[ct@.level as int],
                        coeff_count: (self.ctx@.data_count - ct@.level) as usize,
                        budget: min_budget(
                            cipher_text@.budget,
                            clamp_budget(self.ctx@.fresh_budget(ct@.level as int)),
                        ),
                        ..cipher_text@
                    }
                },
            decreases self.ctx@.levels as int - ct@.level,
        {
            let ghost prev = ct@;
            ct = match self.mod_switch_to_next(&ct) {
                Ok(c) => c,
                Err(_) => {
                    proof {
                        assert(false);
                    }
                    return Err(HeError::Resource);
                },
            };
            proof {
                if prev.level != cipher_text@.level {
                    lemma_fresh_budget_mono(
                        self.ctx@,
                        prev.level as int,
                        prev.level as int + 1,
                    );
                }
            }
        }
        Ok(ct)
    }

    /// Switches a ciphertext down the chain until its identity matches the
    /// given one; the target must name a descendant of the ciphertext's
    /// current chain point.
    pub fn mod_switch_to(&self, cipher_text: &Ciphertext, parms_id: &[u64]) -> (r: Result<
        Ciphertext,
        HeError,
    >)
        requires
            self.ctx@.wf(),
            cipher_text@.wf(),
            cipher_text@.ok_for(self.ctx@),
        ensures
            outcome_ct(r, mod_switch_to_spec(self.ctx@, cipher_text@, parms_id@)),
            r is Ok ==> r->Ok_0@.wf() && r->Ok_0@.ok_for(self.ctx@),
    {
        let a = cipher_text;
        if parms_id.len() != 4 {
            return Err(HeError::Operation(OperationIssue::ParmsMismatch));
        }
        let tid = ParmsId { w0: parms_id[0], w1: parms_id[1], w2: parms_id[2], w3: parms_id[3] };
        match self.ctx.find_level_from(&tid, a.level) {
            None => {
                proof {
                    lemma_find_none(self.ctx@.chain, tid, a@.level as int);
                }
                Err(HeError::Operation(OperationIssue::ParmsMismatch))
            },
            Some(l) => {
                proof {
                    lemma_find_some(self.ctx@.chain, tid, a@.level as int, l as int);
                }
                let budget = self.level_capped_budget(a.budget, l);
                let mut c = a.clone()?;
                c.level = l;
                c.parms_id = self.ctx.chain_ids[l];
                c.coeff_count = self.ctx.data_count - l;
                c.budget = budget;
                Ok(c)
            },
        }
    }

    /// Switches a bound plaintext down the chain until its identity matches
    /// the given one.
    pub fn mod_switch_to_plain_text(&self, plain_text: &Plaintext, parms_id: &[u64]) -> (r: Result<
        Plaintext,
        HeError,
    >)
        requires
            self.ctx@.wf(),
            plain_text@.wf(),
            plain_text@.ok_for(self.ctx@),
        ensures
            outcome_pt(r, mod_switch_to_plain_spec(self.ctx@, plain_text@, parms_id@)),
            r is Ok ==> r->Ok_0@.wf() && r->Ok_0@.ok_for(self.ctx@),
    {
        let p = plain_text;
        if !p.bound || parms_id.len() != 4 {
            return Err(HeError::Operation(OperationIssue::ParmsMismatch));
        }
        let tid = ParmsId { w0: parms_id[0], w1: parms_id[1], w2: parms_id[2], w3: parms_id[3] };
        match self.ctx.find_level_from(&tid, p.level) {
            None => {
                proof {
                    lemma_find_none(self.ctx@.chain, tid, p@.level as int);
                }
                Err(HeError::Operation(OperationIssue::ParmsMismatch))
            },
            Some(l) => {
                proof {
                    lemma_find_some(self.ctx@.chain, tid, p@.level as int, l as int);
                }
                let mut q = p.clone()?;
                q.level = l;
                q.parms_id = self.ctx.chain_ids[l];
                Ok(q)
            },
        }
    }

    /// Rescales a fractional-scheme ciphertext one level down the chain:
    /// one prime is dropped, and the scale together with every mantissa is
    /// divided by the dropped prime's value.
    pub fn rescale_to_next(&self, cipher_text: &Ciphertext) -> (r: Result<Ciphertext, HeError>)
        requires
            self.ctx@.wf(),
            cipher_text@.wf(),
            cipher_text@.ok_for(self.ctx@),
        ensures
            outcome_ct(r, rescale_next_spec(self.ctx@, cipher_text@)),
            r is Ok ==> r->Ok_0@.wf() && r->Ok_0@.ok_for(self.ctx@),
    {
        let a = cipher_text;
        let s = match &a.data {
            SlotData::Fixes(s) => s,
            SlotData::Ints(_) => {
                return Err(HeError::Operation(OperationIssue::SchemeMismatch));
            },
        };
        if a.level + 1 >= self.ctx.levels {
            return Err(HeError::ChainExhausted);
        }
        let p = self.ctx.params.coeff_modulus[a.coeff_count - 1];
        if a.scale < p as u128 {
            return Err(HeError::Operation(OperationIssue::RangeOverflow));
        }
        let scale: u128 = a.scale / (p as u128);
        let budget = self.level_capped_budget(a.budget, a.level + 1);
        let mut v: Vec<i128> = Vec::new();
        let mut i: usize = 0;
        while i < s.len()
            invariant
                i <= s@.len(),
                p >= 2,
                fixes_bounded(s@),
                a@.data == SlotsV::Fixes(s@),
                v@.len() == i,
                forall|j: int| 0 <= j < i ==> v@[j] == rescale_fixes(s@, p)[j],
                forall|j: int| 0 <= j < i ==> -MANT_LIMIT <= #[trigger] v@[j] <= MANT_LIMIT,
            decreases s@.len() - i,
        {
            let m = s[i];
            let mag: u128 = if m < 0 {
                (-m) as u128
            } else {
                m as u128
            };
            let q128: u128 = mag / (p as u128);
            proof {
                vstd::arithmetic::div_mod::lemma_div_nonincreasing(mag as int, p as int);
                vstd::arithmetic::div_mod::lemma_div_pos_is_pos(mag as int, p as int);
            }
            let q: i128 = if m < 0 {
                -(q128 as i128)
            } else {
                q128 as i128
            };
            v.push(q);
            i = i + 1;
        }
        proof {
            assert(v@ =~= rescale_fixes(s@, p));
            vstd::arithmetic::div_mod::lemma_div_pos_is_pos(a@.scale as int, p as int);
            vstd::arithmetic::div_mod::lemma_div_nonincreasing(a@.scale as int, p as int);
            assert((a@.scale as int) / (p as int) >= 1) by (nonlinear_arith)
                requires
                    a@.scale >= p,
                    p >= 2,
            ;
        }
        let c = Ciphertext {
            data: SlotData::Fixes(v),
            ct_size: a.ct_size,
            level: a.level + 1,
            parms_id: self.ctx.chain_ids[a.level + 1],
            scale,
            budget,
            degree: a.degree,
            coeff_count: a.coeff_count - 1,
            plain_modulus: a.plain_modulus,
            scheme: a.scheme,
            pool: a.pool,
        };
        Ok(c)
    }

    /// The budget of a ciphertext arriving at a chain level: its own, but
    /// never above the level's fresh budget.
    fn level_capped_budget(&self, b: i64, level: usize) -> (r: i64)
        requires
            self.ctx@.wf(),
            -BUDGET_MAX <= b <= BUDGET_MAX,
            (level as int) < self.ctx@.levels as int,
        ensures
            r == min_budget(b, clamp_budget(self.ctx@.fresh_budget(level as int))),
            -BUDGET_MAX <= r <= BUDGET_MAX,
    {
        let count = self.ctx.data_count - level;
        let total = sum_bits_exec(&self.ctx.params.coeff_modulus, count);
        let tbits = bit_length(self.ctx.params.plain_modulus);
        let cap: i64 = total as i64 - tbits as i64;
        proof {
            assert(self.ctx@.params.coeff.take(count as int) == self.ctx@.level_primes(
                level as int,
            ));
        }
        if b <= cap {
            b
        } else {
            cap
        }
    }
}

} // verus!
