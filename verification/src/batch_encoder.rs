//! The integer batch encoder.
//!
//! Batching maps a vector of integers modulo the plaintext modulus onto one
//! plaintext, one value per slot.  The number of slots equals the polynomial
//! degree; encoding fewer values leaves the remaining slots at zero, and
//! decoding always returns exactly one value per slot.

use vstd::prelude::*;

use crate::context::Context;
use crate::error::HeError;
use crate::error::OperationIssue;
use crate::error::ParameterIssue;
use crate::memory_pool_handle::MemoryPoolHandle;
use crate::plain_text::empty_plaintext;
use crate::plain_text::pad_ints;
use crate::plain_text::Plaintext;
use crate::plain_text::PlaintextV;
use crate::plain_text::SlotData;
use crate::plain_text::SlotsV;
use crate::SCHEME_BFV;

verus! {

/// Maps integer vectors onto plaintext slots.
pub struct BatchEncoder {
    /// The context the encoder encodes for.
    pub ctx: Context,
}

impl BatchEncoder {
    /// Creates a batch encoder for an integer-scheme context.
    pub fn create(context: &Context) -> (r: Result<BatchEncoder, HeError>)
        requires
            context@.wf(),
        ensures
            match r {
                Ok(e) => {
                    &&& context@.params.scheme == SCHEME_BFV
                    &&& e.ctx@ == context@
                    &&& e.ctx@.wf()
                },
                Err(e) => context@.params.scheme != SCHEME_BFV && e == HeError::Parameter(
                    ParameterIssue::UnsupportedScheme,
                ),
            },
    {
        if context.params.scheme != SCHEME_BFV {
            return Err(HeError::Parameter(ParameterIssue::UnsupportedScheme));
        }
        Ok(BatchEncoder { ctx: context.duplicate() })
    }

    /// The number of slots: one integer modulo the plaintext modulus per
    /// slot, the polynomial degree in total.
    pub fn slot_count(&self) -> (r: Result<usize, HeError>)
        ensures
            r == Ok::<usize, HeError>(self.ctx.params.poly_modulus_degree),
    {
        Ok(self.ctx.params.poly_modulus_degree)
    }

    /// Encodes the values onto a plaintext, missing slots implicitly zero.
    /// The number of values must not exceed the number of slots, and each
    /// value must lie below the plaintext modulus.
    pub fn encode(&self, values: &[u64]) -> (r: Result<Plaintext, HeError>)
        requires
            self.ctx@.wf(),
            self.ctx@.params.scheme == SCHEME_BFV,
        ensures
            match r {
                Ok(p) => {
                    &&& values@.len() <= self.ctx@.params.degree
                    &&& (forall|i: int|
                        0 <= i < values@.len() ==> #[trigger] values@[i]
                            < self.ctx@.params.plain)
                    &&& p@ == (PlaintextV {
                        data: SlotsV::Ints(
                            pad_ints(values@, self.ctx@.params.degree as int),
                        ),
                        ..empty_plaintext()
                    })
                    &&& p@.wf()
                },
                Err(e) => {
                    ||| (values@.len() > self.ctx@.params.degree && e == HeError::Operation(
                        OperationIssue::SizeMismatch,
                    ))
                    ||| (values@.len() <= self.ctx@.params.degree && !(forall|i: int|
                        0 <= i < values@.len() ==> #[trigger] values@[i]
                            < self.ctx@.params.plain) && e == HeError::Operation(
                        OperationIssue::ValueOutOfRange,
                    ))
                },
            },
    {
        let n = self.ctx.params.poly_modulus_degree;
        if values.len() > n {
            return Err(HeError::Operation(OperationIssue::SizeMismatch));
        }
        let t = self.ctx.params.plain_modulus;
        let mut data: Vec<u64> = Vec::new();
        let mut i: usize = 0;
        while i < n
            invariant
                i <= n,
                values@.len() <= n == self.ctx@.params.degree,
                t == self.ctx@.params.plain,
                data@ == pad_ints(values@, n as int).take(i as int),
                forall|j: int|
                    0 <= j < i && j < values@.len() ==> #[trigger] values@[j] < t,
            decreases n - i,
        {
            if i < values.len() {
                let x = values[i];
                if x >= t {
                    proof {
                        assert(!(values@[i as int] < t));
                    }
                    return Err(HeError::Operation(OperationIssue::ValueOutOfRange));
                }
                data.push(x);
            } else {
                data.push(0);
            }
            proof {
                assert(pad_ints(values@, n as int).take(i + 1) =~= pad_ints(
                    values@,
                    n as int,
                ).take(i as int).push(pad_ints(values@, n as int)[i as int]));
            }
            i = i + 1;
        }
        proof {
            assert(pad_ints(values@, n as int).take(n as int) =~= pad_ints(values@, n as int));
        }
        let p = Plaintext {
            data: SlotData::Ints(data),
            bound: false,
            parms_id: crate::context::ParmsId { w0: 0, w1: 0, w2: 0, w3: 0 },
            level: 0,
            scale: 0,
            pool: MemoryPoolHandle { thread_local: true },
        };
        Ok(p)
    }

    /// Decodes a plaintext back into exactly one value per slot.
    pub fn decode(&self, plain_text: &Plaintext) -> (r: Result<Vec<u64>, HeError>)
        requires
            self.ctx@.wf(),
        ensures
            match r {
                Ok(v) => {
                    &&& plain_text@.data is Ints
                    &&& plain_text@.data.len() <= self.ctx@.params.degree
                    &&& v@ == pad_ints(
                        plain_text@.data->Ints_0,
                        self.ctx@.params.degree as int,
                    )
                },
                Err(e) => {
                    ||| (!(plain_text@.data is Ints) && e == HeError::Operation(
                        OperationIssue::SchemeMismatch,
                    ))
                    ||| (plain_text@.data is Ints && plain_text@.data.len()
                        > self.ctx@.params.degree && e == HeError::Operation(
                        OperationIssue::SizeMismatch,
                    ))
                },
            },
    {
        let s = match &plain_text.data {
            SlotData::Ints(s) => s,
            SlotData::Fixes(_) => {
                return Err(HeError::Operation(OperationIssue::SchemeMismatch));
            },
        };
        let n = self.ctx.params.poly_modulus_degree;
        if s.len() > n {
            return Err(HeError::Operation(OperationIssue::SizeMismatch));
        }
        let mut out: Vec<u64> = Vec::new();
        let mut i: usize = 0;
        while i < n
            invariant
                i <= n,
                s@.len() <= n,
                plain_text@.data == SlotsV::Ints(s@),
                out@ == pad_ints(s@, n as int).take(i as int),
            decreases n - i,
        {
            let x: u64 = if i < s.len() {
                s[i]
            } else {
                0
            };
            out.push(x);
            proof {
                assert(pad_ints(s@, n as int).take(i + 1) =~= pad_ints(s@, n as int).take(
                    i as int,
                ).push(pad_ints(s@, n as int)[i as int]));
            }
            i = i + 1;
        }
        proof {
            assert(pad_ints(s@, n as int).take(n as int) =~= pad_ints(s@, n as int));
        }
        Ok(out)
    }

    /// The context the encoder encodes for.
    pub fn ptr(&self) -> (r: &Context)
        ensures
            r@ == self.ctx@,
    {
        &self.ctx
    }
}

} // verus!
