//! The fractional (CKKS-style) encoder.
//!
//! A fractional value is carried as a fixed-point mantissa: the caller
//! supplies each value already multiplied by the target scale and rounded to
//! an integer, and decoding returns the mantissas together with the scale
//! that interprets them.  Encoding binds the plaintext to the top of the
//! modulus-switching chain at the given scale; half the polynomial degree is
//! available as slots.

use vstd::prelude::*;

use crate::context::Context;
use crate::error::HeError;
use crate::error::OperationIssue;
use crate::error::ParameterIssue;
use crate::memory_pool_handle::MemoryPoolHandle;
use crate::plain_text::pad_fixes;
use crate::plain_text::Plaintext;
use crate::plain_text::PlaintextV;
use crate::plain_text::SlotData;
use crate::plain_text::SlotsV;
use crate::plain_text::MANT_LIMIT;
use crate::plain_text::SCALE_LIMIT;
use crate::SCHEME_CKKS;

verus! {

/// Maps fixed-point mantissa vectors onto plaintext slots.
pub struct CKKSEncoder {
    /// The context the encoder encodes for.
    pub ctx: Context,
}

impl CKKSEncoder {
    /// Creates an encoder for a fractional-scheme context.
    pub fn create(context: &Context) -> (r: Result<CKKSEncoder, HeError>)
        requires
            context@.wf(),
        ensures
            match r {
                Ok(e) => {
                    &&& context@.params.scheme == SCHEME_CKKS
                    &&& e.ctx@ == context@
                    &&& e.ctx@.wf()
                },
                Err(e) => context@.params.scheme != SCHEME_CKKS && e == HeError::Parameter(
                    ParameterIssue::UnsupportedScheme,
                ),
            },
    {
        if context.params.scheme != SCHEME_CKKS {
            return Err(HeError::Parameter(ParameterIssue::UnsupportedScheme));
        }
        Ok(CKKSEncoder { ctx: context.duplicate() })
    }

    /// The number of slots: half the polynomial degree.
    pub fn slot_count(&self) -> (r: Result<usize, HeError>)
        ensures
            r == Ok::<usize, HeError>(self.ctx.params.poly_modulus_degree / 2),
    {
        Ok(self.ctx.params.poly_modulus_degree / 2)
    }

    /// Encodes mantissas onto a plaintext bound to the top chain level at
    /// the given scale, missing slots implicitly zero.  The number of values
    /// must not exceed the number of slots; the scale and every mantissa
    /// must lie in the fixed-point working range.
    pub fn encode(&self, values: &[i128], scale: u128) -> (r: Result<Plaintext, HeError>)
        requires
            self.ctx@.wf(),
            self.ctx@.params.scheme == SCHEME_CKKS,
        ensures
            match r {
                Ok(p) => {
                    &&& values@.len() <= self.ctx@.slot_count()
                    &&& 1 <= scale <= SCALE_LIMIT
                    &&& (forall|i: int|
                        0 <= i < values@.len() ==> -MANT_LIMIT <= #[trigger] values@[i]
                            <= MANT_LIMIT)
                    &&& p@ == (PlaintextV {
                        data: SlotsV::Fixes(pad_fixes(values@, self.ctx@.slot_count())),
                        bound: true,
                        parms_id: self.ctx@.chain[0],
                        level: 0,
                        scale,
                    })
                    &&& p@.wf()
                    &&& p@.ok_for(self.ctx@)
                },
                Err(e) => {
                    ||| (values@.len() > self.ctx@.slot_count() && e == HeError::Operation(
                        OperationIssue::SizeMismatch,
                    ))
                    ||| (values@.len() <= self.ctx@.slot_count() && !(1 <= scale
                        <= SCALE_LIMIT) && e == HeError::Operation(
                        OperationIssue::RangeOverflow,
                    ))
                    ||| (values@.len() <= self.ctx@.slot_count() && 1 <= scale <= SCALE_LIMIT
                        && !(forall|i: int|
                        0 <= i < values@.len() ==> -MANT_LIMIT <= #[trigger] values@[i]
                            <= MANT_LIMIT) && e == HeError::Operation(
                        OperationIssue::RangeOverflow,
                    ))
                },
            },
    {
        let n = self.ctx.params.poly_modulus_degree / 2;
        if values.len() > n {
            return Err(HeError::Operation(OperationIssue::SizeMismatch));
        }
        if scale < 1 || scale > SCALE_LIMIT {
            return Err(HeError::Operation(OperationIssue::RangeOverflow));
        }
        let mut data: Vec<i128> = Vec::new();
        let mut i: usize = 0;
        while i < n
            invariant
                i <= n,
                values@.len() <= n,
                n == self.ctx@.slot_count(),
                1 <= scale <= SCALE_LIMIT,
                data@ == pad_fixes(values@, n as int).take(i as int),
                forall|j: int|
                    0 <= j < i && j < values@.len() ==> -MANT_LIMIT <= #[trigger] values@[j]
                        <= MANT_LIMIT,
            decreases n - i,
        {
            if i < values.len() {
                let x = values[i];
                if x < -MANT_LIMIT || x > MANT_LIMIT {
                    proof {
                        assert(!(-MANT_LIMIT <= values@[i as int] <= MANT_LIMIT));
                    }
                    return Err(HeError::Operation(OperationIssue::RangeOverflow));
                }
                data.push(x);
            } else {
                data.push(0);
            }
            proof {
                assert(pad_fixes(values@, n as int).take(i + 1) =~= pad_fixes(
                    values@,
                    n as int,
                ).take(i as int).push(pad_fixes(values@, n as int)[i as int]));
            }
            i = i + 1;
        }
        proof {
            assert(pad_fixes(values@, n as int).take(n as int) =~= pad_fixes(values@, n as int));
        }
        let p = Plaintext {
            data: SlotData::Fixes(data),
            bound: true,
            parms_id: self.ctx.chain_ids[0],
            level: 0,
            scale,
            pool: MemoryPoolHandle { thread_local: true },
        };
        Ok(p)
    }

    /// Encodes one mantissa broadcast to every slot.
    pub fn encode_value(&self, value: i128, scale: u128) -> (r: Result<Plaintext, HeError>)
        requires
            self.ctx@.wf(),
            self.ctx@.params.scheme == SCHEME_CKKS,
        ensures
            match r {
                Ok(p) => {
                    &&& 1 <= scale <= SCALE_LIMIT
                    &&& -MANT_LIMIT <= value <= MANT_LIMIT
                    &&& p@ == (PlaintextV {
                        data: SlotsV::Fixes(
                            Seq::new(self.ctx@.slot_count() as nat, |i: int| value),
                        ),
                        bound: true,
                        parms_id: self.ctx@.chain[0],
                        level: 0,
                        scale,
                    })
                    &&& p@.wf()
                    &&& p@.ok_for(self.ctx@)
                },
                Err(e) => {
                    &&& e == HeError::Operation(OperationIssue::RangeOverflow)
                    &&& (!(1 <= scale <= SCALE_LIMIT) || !(-MANT_LIMIT <= value <= MANT_LIMIT))
                },
            },
    {
        if scale < 1 || scale > SCALE_LIMIT {
            return Err(HeError::Operation(OperationIssue::RangeOverflow));
        }
        if value < -MANT_LIMIT || value > MANT_LIMIT {
            return Err(HeError::Operation(OperationIssue::RangeOverflow));
        }
        let n = self.ctx.params.poly_modulus_degree / 2;
        let mut data: Vec<i128> = Vec::new();
        let mut i: usize = 0;
        while i < n
            invariant
                i <= n,
                data@ == Seq::new(n as nat, |j: int| value).take(i as int),
            decreases n - i,
        {
            data.push(value);
            proof {
                assert(Seq::new(n as nat, |j: int| value).take(i + 1) =~= Seq::new(
                    n as nat,
                    |j: int| value,
                ).take(i as int).push(value));
            }
            i = i + 1;
        }
        proof {
            assert(Seq::new(n as nat, |j: int| value).take(n as int) =~= Seq::new(
                n as nat,
                |j: int| value,
            ));
        }
        let p = Plaintext {
            data: SlotData::Fixes(data),
            bound: true,
            parms_id: self.ctx.chain_ids[0],
            level: 0,
            scale,
            pool: MemoryPoolHandle { thread_local: true },
        };
        Ok(p)
    }

    /// Decodes a plaintext back into one mantissa per slot; the plaintext's
    /// scale interprets them.
    pub fn decode(&self, plain_text: &Plaintext) -> (r: Result<Vec<i128>, HeError>)
        requires
            self.ctx@.wf(),
            self.ctx@.params.scheme == SCHEME_CKKS,
        ensures
            match r {
                Ok(v) => {
                    &&& plain_text@.data is Fixes
                    &&& plain_text@.data.len() <= self.ctx@.slot_count()
                    &&& v@ == pad_fixes(plain_text@.data->Fixes_0, self.ctx@.slot_count())
                },
                Err(e) => {
                    ||| (!(plain_text@.data is Fixes) && e == HeError::Operation(
                        OperationIssue::SchemeMismatch,
                    ))
                    ||| (plain_text@.data is Fixes && plain_text@.data.len()
                        > self.ctx@.slot_count() && e == HeError::Operation(
                        OperationIssue::SizeMismatch,
                    ))
                },
            },
    {
        let s = match &plain_text.data {
            SlotData::Fixes(s) => s,
            SlotData::Ints(_) => {
                return Err(HeError::Operation(OperationIssue::SchemeMismatch));
            },
        };
        let n = self.ctx.params.poly_modulus_degree / 2;
        if s.len() > n {
            return Err(HeError::Operation(OperationIssue::SizeMismatch));
        }
        let mut out: Vec<i128> = Vec::new();
        let mut i: usize = 0;
        while i < n
            invariant
                i <= n,
                s@.len() <= n,
                plain_text@.data == SlotsV::Fixes(s@),
                out@ == pad_fixes(s@, n as int).take(i as int),
            decreases n - i,
        {
            let x: i128 = if i < s.len() {
                s[i]
            } else {
                0
            };
            out.push(x);
            proof {
                assert(pad_fixes(s@, n as int).take(i + 1) =~= pad_fixes(s@, n as int).take(
                    i as int,
                ).push(pad_fixes(s@, n as int)[i as int]));
            }
            i = i + 1;
        }
        proof {
            assert(pad_fixes(s@, n as int).take(n as int) =~= pad_fixes(s@, n as int));
        }
        Ok(out)
    }
}

} // verus!
