//! The ciphertext value object.
//!
//! A ciphertext carries its slot contents together with the implicit state
//! the evaluator's bookkeeping rules act on: the number of polynomial
//! components, the chain level and its parameter identity, the fixed-point
//! scale, and the remaining noise budget.  The raw residue array is
//! addressable as a flat sequence for specialized use; that path bypasses
//! the scheme-level checks, and the caller answers for consistency.

use vstd::prelude::*;

use crate::codec::decode_words;
use crate::codec::decode_words_vec;
use crate::codec::encode_words;
use crate::codec::encode_words_vec;
use crate::codec::lemma_u128_split_join;
use crate::codec::lemma_words_roundtrip;
use crate::codec::push_u128;
use crate::codec::u128_hi;
use crate::codec::u128_lo;
use crate::codec::u128_of;
use crate::context::Context;
use crate::context::ContextV;
use crate::context::ParmsId;
use crate::error::HeError;
use crate::error::OperationIssue;
use crate::memory_pool_handle::MemoryPoolHandle;
use crate::params::degree_ok;
use crate::plain_text::clone_slot_data;
use crate::plain_text::fixes_bounded;
use crate::plain_text::ints_below;
use crate::plain_text::lemma_slots_words_len;
use crate::plain_text::parse_slots;
use crate::plain_text::push_slot_data;
use crate::plain_text::read_slot_data;
use crate::plain_text::Plaintext;
use crate::plain_text::SlotData;
use crate::plain_text::SlotsV;
use crate::plain_text::MANT_LIMIT;
use crate::plain_text::SCALE_LIMIT;
use crate::plain_text::SLOTS_MAX;
use crate::small_modulus::MODULUS_VALUE_MAX;
use crate::SCHEME_BFV;
use crate::SCHEME_CKKS;

verus! {

/// Stream tag of a serialized ciphertext.
pub const WKIND_CIPHERTEXT: u64 = 3;

/// The most polynomial components a ciphertext may grow to.
pub const CT_SIZE_MAX: usize = 32;

/// The widest budget value the bookkeeping tracks, in bits.
pub const BUDGET_MAX: i64 = 1048576;

/// The abstract value of a ciphertext.
pub struct CiphertextV {
    /// The slot contents.
    pub data: SlotsV,
    /// The number of polynomial components (2 normally, 3 after a
    /// multiplication before relinearization).
    pub ct_size: usize,
    /// The chain level the ciphertext sits at.
    pub level: usize,
    /// The parameter identity of that chain point.
    pub parms_id: ParmsId,
    /// The fixed-point scale (zero for the integer scheme).
    pub scale: u128,
    /// The remaining invariant noise budget, in bits.
    pub budget: i64,
    /// The polynomial modulus degree of the originating parameters.
    pub degree: usize,
    /// The number of coefficient primes in force at the current level.
    pub coeff_count: usize,
    /// The plaintext modulus (zero for the fractional scheme).
    pub plain_modulus: u64,
    /// The scheme tag.
    pub scheme: u8,
}

impl CiphertextV {
    /// Structural well-formedness: what encryption and every evaluator
    /// operation establish.
    pub open spec fn wf(self) -> bool {
        &&& self.data.len() <= SLOTS_MAX as int
        &&& self.level < 64
        &&& 2 <= self.ct_size <= CT_SIZE_MAX
        &&& 1 <= self.coeff_count <= 64
        &&& degree_ok(self.degree)
        &&& -BUDGET_MAX <= self.budget <= BUDGET_MAX
        &&& match self.data {
            SlotsV::Ints(s) => {
                &&& self.scheme == SCHEME_BFV
                &&& 2 <= self.plain_modulus <= MODULUS_VALUE_MAX
                &&& ints_below(s, self.plain_modulus)
                &&& s.len() <= self.degree
                &&& self.scale == 0
            },
            SlotsV::Fixes(s) => {
                &&& self.scheme == SCHEME_CKKS
                &&& self.plain_modulus == 0
                &&& fixes_bounded(s)
                &&& 1 <= self.scale <= SCALE_LIMIT
                &&& s.len() == self.degree as int / 2
            },
        }
    }

    /// Whether the ciphertext belongs to the chain of `ctx`.
    pub open spec fn ok_for(self, ctx: ContextV) -> bool {
        &&& self.scheme == ctx.params.scheme
        &&& self.degree == ctx.params.degree
        &&& self.plain_modulus == ctx.params.plain
        &&& (self.level as int) < ctx.levels as int
        &&& ctx.chain[self.level as int] == self.parms_id
        &&& self.coeff_count == ctx.data_count - self.level
    }
}

/// Encrypted polynomial components, with the state the evaluator's rules
/// read: size, level, parameter identity, scale and noise budget.
pub struct Ciphertext {
    /// The slot contents.
    pub data: SlotData,
    /// The number of polynomial components.
    pub ct_size: usize,
    /// The chain level the ciphertext sits at.
    pub level: usize,
    /// The parameter identity of that chain point.
    pub parms_id: ParmsId,
    /// The fixed-point scale (zero for the integer scheme).
    pub scale: u128,
    /// The remaining invariant noise budget, in bits.
    pub budget: i64,
    /// The polynomial modulus degree of the originating parameters.
    pub degree: usize,
    /// The number of coefficient primes in force at the current level.
    pub coeff_count: usize,
    /// The plaintext modulus (zero for the fractional scheme).
    pub plain_modulus: u64,
    /// The scheme tag.
    pub scheme: u8,
    /// The pool the ciphertext allocates from.
    pub pool: MemoryPoolHandle,
}

impl View for Ciphertext {
    type V = CiphertextV;

    open spec fn view(&self) -> CiphertextV {
        CiphertextV {
            data: self.data@,
            ct_size: self.ct_size,
            level: self.level,
            parms_id: self.parms_id,
            scale: self.scale,
            budget: self.budget,
            degree: self.degree,
            coeff_count: self.coeff_count,
            plain_modulus: self.plain_modulus,
            scheme: self.scheme,
        }
    }
}

/// The placeholder value of a freshly created, not yet encrypted ciphertext.
pub open spec fn empty_ciphertext() -> CiphertextV {
    CiphertextV {
        data: SlotsV::Ints(Seq::empty()),
        ct_size: 0,
        level: 0,
        parms_id: (ParmsId { w0: 0, w1: 0, w2: 0, w3: 0 }),
        scale: 0,
        budget: 0,
        degree: 0,
        coeff_count: 0,
        plain_modulus: 0,
        scheme: 0,
    }
}

impl Ciphertext {
    /// An empty ciphertext holding the given pool.
    pub(crate) fn fresh(pool: MemoryPoolHandle) -> (r: Ciphertext)
        ensures
            r@ == empty_ciphertext(),
            r.pool == pool,
    {
        let c = Ciphertext {
            data: SlotData::Ints(Vec::new()),
            ct_size: 0,
            level: 0,
            parms_id: ParmsId { w0: 0, w1: 0, w2: 0, w3: 0 },
            scale: 0,
            budget: 0,
            degree: 0,
            coeff_count: 0,
            plain_modulus: 0,
            scheme: 0,
            pool,
        };
        proof {
            assert(c@.data->Ints_0 =~= Seq::<u64>::empty());
        }
        c
    }

    /// Creates an empty ciphertext in the thread-local memory pool.
    pub fn create() -> (r: Result<Ciphertext, HeError>)
        ensures
            match r {
                Ok(c) => c@ == empty_ciphertext(),
                Err(_) => false,
            },
    {
        let pool = MemoryPoolHandle::to_thread_local_pool()?;
        Ok(Self::fresh(pool))
    }

    /// Creates an empty ciphertext in the thread-local memory pool, shaped
    /// for a context.
    pub fn create_with_context(context: &Context) -> (r: Result<Ciphertext, HeError>)
        ensures
            match r {
                Ok(c) => c@ == (CiphertextV {
                    degree: context@.params.degree,
                    plain_modulus: context@.params.plain,
                    scheme: context@.params.scheme,
                    ..empty_ciphertext()
                }),
                Err(_) => false,
            },
    {
        let pool = MemoryPoolHandle::to_thread_local_pool()?;
        let mut c = Self::fresh(pool);
        c.degree = context.params.poly_modulus_degree;
        c.plain_modulus = context.params.plain_modulus;
        c.scheme = context.params.scheme;
        Ok(c)
    }

    /// Creates an empty ciphertext in the given memory pool.
    pub fn create_in_pool(memory_pool_handle: MemoryPoolHandle) -> (r: Result<Ciphertext, HeError>)
        ensures
            match r {
                Ok(c) => c@ == empty_ciphertext(),
                Err(_) => false,
            },
    {
        Ok(Self::fresh(memory_pool_handle))
    }

    /// Creates an empty ciphertext in the pool of another ciphertext.
    pub(crate) fn create_in_pool_of_cipher_text(other: &Ciphertext) -> (r: Result<
        Ciphertext,
        HeError,
    >)
        ensures
            match r {
                Ok(c) => c@ == empty_ciphertext(),
                Err(_) => false,
            },
    {
        Ok(Self::fresh(other.pool))
    }

    /// Creates an empty ciphertext in the pool of a plaintext.
    pub(crate) fn create_in_pool_of_plain_text(other: &Plaintext) -> (r: Result<
        Ciphertext,
        HeError,
    >)
        ensures
            match r {
                Ok(c) => c@ == empty_ciphertext(),
                Err(_) => false,
            },
    {
        Ok(Self::fresh(other.pool))
    }

    /// The number of polynomial components.
    pub fn size(&self) -> (r: Result<usize, HeError>)
        ensures
            r == Ok::<usize, HeError>(self.ct_size),
    {
        Ok(self.ct_size)
    }

    /// The polynomial modulus degree of the originating parameters.
    pub fn get_poly_modulus_degree(&self) -> (r: Result<usize, HeError>)
        ensures
            r == Ok::<usize, HeError>(self.degree),
    {
        Ok(self.degree)
    }

    /// The number of coefficient primes in force at the ciphertext's level.
    /// This is the context-data count, one less than the parameter set's own
    /// chain length at the top level.
    pub fn get_coeff_modulus_size(&self) -> (r: Result<usize, HeError>)
        ensures
            r == Ok::<usize, HeError>(self.coeff_count),
    {
        Ok(self.coeff_count)
    }

    /// The number of residues in one polynomial component.
    pub fn poly_size(&self) -> (r: Result<usize, HeError>)
        ensures
            match r {
                Ok(n) => {
                    &&& self.coeff_count <= 64 && self.degree <= 32768
                    &&& n == self.coeff_count * self.degree
                },
                Err(e) => (self.coeff_count > 64 || self.degree > 32768) && e
                    == HeError::Operation(OperationIssue::ValueOutOfRange),
            },
    {
        if self.coeff_count > 64 || self.degree > 32768 {
            return Err(HeError::Operation(OperationIssue::ValueOutOfRange));
        }
        proof {
            assert(self.coeff_count * self.degree <= 64 * 32768) by (nonlinear_arith)
                requires
                    self.coeff_count <= 64,
                    self.degree <= 32768,
            ;
        }
        Ok(self.coeff_count * self.degree)
    }

    /// The fixed-point scale.
    pub fn scale(&self) -> (r: Result<u128, HeError>)
        ensures
            r == Ok::<u128, HeError>(self.scale),
    {
        Ok(self.scale)
    }

    /// Overrides the fixed-point scale.  Only a fractional-scheme ciphertext
    /// carries a meaningful scale, and the new value must lie in the working
    /// range.
    pub fn set_scale(&mut self, scale: u128) -> (r: Result<(), HeError>)
        ensures
            match r {
                Ok(()) => {
                    &&& old(self)@.data is Fixes
                    &&& 1 <= scale <= SCALE_LIMIT
                    &&& final(self)@ == (CiphertextV { scale, ..old(self)@ })
                },
                Err(e) => {
                    &&& final(self)@ == old(self)@
                    &&& {
                        ||| (!(old(self)@.data is Fixes) && e == HeError::Operation(
                            OperationIssue::SchemeMismatch,
                        ))
                        ||| (old(self)@.data is Fixes && !(1 <= scale <= SCALE_LIMIT) && e
                            == HeError::Operation(OperationIssue::RangeOverflow))
                    }
                },
            },
    {
        match &self.data {
            SlotData::Ints(_) => Err(HeError::Operation(OperationIssue::SchemeMismatch)),
            SlotData::Fixes(_) => {
                if scale < 1 || scale > SCALE_LIMIT {
                    return Err(HeError::Operation(OperationIssue::RangeOverflow));
                }
                self.scale = scale;
                Ok(())
            },
        }
    }

    /// The parameter identity of the ciphertext's chain point, as four
    /// words.
    pub fn parms_id(&self) -> (r: Result<Vec<u64>, HeError>)
        ensures
            match r {
                Ok(v) => v@ == seq![
                    self.parms_id.w0,
                    self.parms_id.w1,
                    self.parms_id.w2,
                    self.parms_id.w3,
                ],
                Err(_) => false,
            },
    {
        let mut v: Vec<u64> = Vec::new();
        v.push(self.parms_id.w0);
        v.push(self.parms_id.w1);
        v.push(self.parms_id.w2);
        v.push(self.parms_id.w3);
        proof {
            assert(v@ =~= seq![self.parms_id.w0, self.parms_id.w1, self.parms_id.w2, self.parms_id.w3]);
        }
        Ok(v)
    }

    /// A deep copy of the ciphertext.
    pub fn clone(&self) -> (r: Result<Ciphertext, HeError>)
        ensures
            match r {
                Ok(c) => c@ == self@,
                Err(_) => false,
            },
    {
        Ok(
            Ciphertext {
                data: clone_slot_data(&self.data),
                ct_size: self.ct_size,
                level: self.level,
                parms_id: self.parms_id,
                scale: self.scale,
                budget: self.budget,
                degree: self.degree,
                coeff_count: self.coeff_count,
                plain_modulus: self.plain_modulus,
                scheme: self.scheme,
                pool: self.pool,
            },
        )
    }

    /// The flat residue view: `size` components, each `coeff_count` blocks
    /// of `degree` residues.  The first block of the first component carries
    /// the slot values; every other residue is identically zero in this
    /// representation.
    pub fn get_raw_rns(&self) -> (r: Result<Vec<u64>, HeError>)
        ensures
            match r {
                Ok(v) => {
                    &&& self@.data is Ints
                    &&& raw_dims_ok(self@)
                    &&& v@ == raw_rns(self@)
                },
                Err(e) => {
                    ||| (!(self@.data is Ints) && e == HeError::Operation(
                        OperationIssue::SchemeMismatch,
                    ))
                    ||| (self@.data is Ints && !raw_dims_ok(self@) && e == HeError::Operation(
                        OperationIssue::ValueOutOfRange,
                    ))
                },
            },
    {
        let s = match &self.data {
            SlotData::Ints(s) => s,
            SlotData::Fixes(_) => {
                return Err(HeError::Operation(OperationIssue::SchemeMismatch));
            },
        };
        if self.ct_size > CT_SIZE_MAX || self.coeff_count > 64 || self.degree > 32768
            || s.len() > self.degree {
            return Err(HeError::Operation(OperationIssue::ValueOutOfRange));
        }
        proof {
            assert(self.ct_size * self.coeff_count <= 32 * 64 && self.ct_size
                * self.coeff_count * self.degree <= 32 * 64 * 32768) by (nonlinear_arith)
                requires
                    self.ct_size <= 32,
                    self.coeff_count <= 64,
                    self.degree <= 32768,
            ;
        }
        let total: usize = self.ct_size * self.coeff_count * self.degree;
        let block: usize = self.degree;
        let mut v: Vec<u64> = Vec::new();
        let mut i: usize = 0;
        while i < total
            invariant
                i <= total,
                total == self@.ct_size * self@.coeff_count * self@.degree,
                block == self@.degree,
                self@.data == SlotsV::Ints(s@),
                s@.len() <= block,
                v@.len() == i,
                forall|j: int| 0 <= j < i ==> v@[j] == raw_rns(self@)[j],
            decreases total - i,
        {
            let x: u64 = if i < block {
                if i < s.len() {
                    s[i]
                } else {
                    0
                }
            } else {
                0
            };
            v.push(x);
            i = i + 1;
        }
        proof {
            assert(v@ =~= raw_rns(self@));
        }
        Ok(v)
    }

    /// Overwrites the slot values from a flat residue array of at most the
    /// full raw length.  No scheme-level validation is applied — the values
    /// are stored as given, and the caller assumes responsibility for
    /// consistency.  One bound comes from the representation, not the
    /// scheme: residues beyond the first block are identically zero here,
    /// so a write placing a nonzero residue there is refused as
    /// unrepresentable.
    pub fn set_raw_rns(&mut self, polynomials: Vec<u64>) -> (r: Result<(), HeError>)
        ensures
            match r {
                Ok(()) => {
                    &&& old(self)@.data is Ints
                    &&& raw_dims_ok(old(self)@)
                    &&& polynomials@.len() <= raw_word_count(old(self)@)
                    &&& (forall|i: int|
                        old(self)@.degree <= i < polynomials@.len()
                            ==> #[trigger] polynomials@[i] == 0u64)
                    &&& final(self)@ == (CiphertextV {
                        data: SlotsV::Ints(
                            polynomials@.take(
                                if polynomials@.len() <= old(self)@.degree as int {
                                    polynomials@.len() as int
                                } else {
                                    old(self)@.degree as int
                                },
                            ),
                        ),
                        ..old(self)@
                    })
                },
                Err(e) => {
                    &&& final(self)@ == old(self)@
                    &&& {
                        ||| (!(old(self)@.data is Ints) && e == HeError::Operation(
                            OperationIssue::SchemeMismatch,
                        ))
                        ||| (old(self)@.data is Ints && !raw_dims_ok(old(self)@) && e
                            == HeError::Operation(OperationIssue::ValueOutOfRange))
                        ||| (old(self)@.data is Ints && raw_dims_ok(old(self)@)
                            && polynomials@.len() > raw_word_count(old(self)@) && e
                            == HeError::Operation(OperationIssue::SizeMismatch))
                        ||| (old(self)@.data is Ints && raw_dims_ok(old(self)@)
                            && polynomials@.len() <= raw_word_count(old(self)@) && !(forall|
                            i: int,
                        |
                            old(self)@.degree <= i < polynomials@.len()
                                ==> #[trigger] polynomials@[i] == 0u64) && e
                            == HeError::Operation(OperationIssue::ValueOutOfRange))
                    }
                },
            },
    {
        let slen = match &self.data {
            SlotData::Ints(s) => s.len(),
            SlotData::Fixes(_) => {
                return Err(HeError::Operation(OperationIssue::SchemeMismatch));
            },
        };
        if self.ct_size > CT_SIZE_MAX || self.coeff_count > 64 || self.degree > 32768 || slen
            > self.degree {
            return Err(HeError::Operation(OperationIssue::ValueOutOfRange));
        }
        proof {
            assert(self.ct_size * self.coeff_count <= 32 * 64 && self.ct_size
                * self.coeff_count * self.degree <= 32 * 64 * 32768) by (nonlinear_arith)
                requires
                    self.ct_size <= 32,
                    self.coeff_count <= 64,
                    self.degree <= 32768,
            ;
        }
        let total: usize = self.ct_size * self.coeff_count * self.degree;
        if polynomials.len() > total {
            return Err(HeError::Operation(OperationIssue::SizeMismatch));
        }
        let block: usize = self.degree;
        let mut i: usize = block;
        while i < polynomials.len()
            invariant
                block <= i || i == polynomials@.len(),
                block == old(self)@.degree,
                old(self)@.data is Ints,
                raw_dims_ok(old(self)@),
                polynomials@.len() <= raw_word_count(old(self)@),
                self@ == old(self)@,
                forall|j: int|
                    block <= j < i ==> #[trigger] polynomials@[j] == 0u64,
            decreases polynomials@.len() - i,
        {
            if polynomials[i] != 0 {
                proof {
                    assert(polynomials@[i as int] != 0u64);
                }
                return Err(HeError::Operation(OperationIssue::ValueOutOfRange));
            }
            i = i + 1;
        }
        let keep: usize = if polynomials.len() <= block {
            polynomials.len()
        } else {
            block
        };
        let mut v: Vec<u64> = Vec::new();
        let mut k: usize = 0;
        while k < keep
            invariant
                k <= keep <= polynomials@.len(),
                v@ == polynomials@.take(k as int),
            decreases keep - k,
        {
            v.push(polynomials[k]);
            proof {
                assert(polynomials@.take(k + 1) =~= polynomials@.take(k as int).push(
                    polynomials@[k as int],
                ));
            }
            k = k + 1;
        }
        self.data = SlotData::Ints(v);
        Ok(())
    }

    /// Adds another ciphertext's residues into this one through the raw
    /// residue view: the two views are added elementwise, each block
    /// reduced by its modulus, and the result is stored back.  The zero
    /// blocks stay zero, so the stored slot values become the elementwise
    /// sum of the two first blocks modulo the first modulus.
    pub fn try_add_assign(&mut self, other: &Ciphertext, modulus: &[u64]) -> (r: Result<
        (),
        HeError,
    >)
        ensures
            match r {
                Ok(()) => {
                    &&& old(self)@.data is Ints
                    &&& other@.data is Ints
                    &&& raw_dims_ok(old(self)@)
                    &&& raw_dims_ok(other@)
                    &&& raw_shape_eq(old(self)@, other@)
                    &&& modulus@.len() >= old(self)@.coeff_count
                    &&& old(self)@.coeff_count >= 1
                    &&& (forall|j: int|
                        0 <= j < old(self)@.coeff_count ==> #[trigger] modulus@[j] >= 1)
                    &&& final(self)@ == (CiphertextV {
                        data: SlotsV::Ints(
                            raw_block_add(
                                old(self)@.data->Ints_0,
                                other@.data->Ints_0,
                                old(self)@.degree as int,
                                modulus@[0],
                            ),
                        ),
                        ..old(self)@
                    })
                },
                Err(e) => {
                    &&& final(self)@ == old(self)@
                    &&& {
                        ||| (!(old(self)@.data is Ints && other@.data is Ints) && e
                            == HeError::Operation(OperationIssue::SchemeMismatch))
                        ||| (old(self)@.data is Ints && other@.data is Ints && !(
                        raw_dims_ok(old(self)@) && raw_dims_ok(other@)) && e
                            == HeError::Operation(OperationIssue::ValueOutOfRange))
                        ||| (old(self)@.data is Ints && other@.data is Ints && raw_dims_ok(
                            old(self)@,
                        ) && raw_dims_ok(other@) && !raw_shape_eq(old(self)@, other@) && e
                            == HeError::Operation(OperationIssue::SizeMismatch))
                        ||| (old(self)@.data is Ints && other@.data is Ints && raw_dims_ok(
                            old(self)@,
                        ) && raw_dims_ok(other@) && raw_shape_eq(old(self)@, other@) && !(
                        modulus@.len() >= old(self)@.coeff_count && old(self)@.coeff_count >= 1
                            && (forall|j: int|
                            0 <= j < old(self)@.coeff_count ==> #[trigger] modulus@[j] >= 1))
                            && e == HeError::Operation(OperationIssue::ValueOutOfRange))
                    }
                },
            },
    {
        let (a, b) = match (&self.data, &other.data) {
            (SlotData::Ints(a), SlotData::Ints(b)) => (a, b),
            _ => {
                return Err(HeError::Operation(OperationIssue::SchemeMismatch));
            },
        };
        if self.ct_size > CT_SIZE_MAX || self.coeff_count > 64 || self.degree > 32768 || a.len()
            > self.degree || other.ct_size > CT_SIZE_MAX || other.coeff_count > 64
            || other.degree > 32768 || b.len() > other.degree {
            return Err(HeError::Operation(OperationIssue::ValueOutOfRange));
        }
        if !(self.ct_size == other.ct_size && self.coeff_count == other.coeff_count
            && self.degree == other.degree) {
            return Err(HeError::Operation(OperationIssue::SizeMismatch));
        }
        if modulus.len() < self.coeff_count || self.coeff_count < 1 {
            return Err(HeError::Operation(OperationIssue::ValueOutOfRange));
        }
        let mut j: usize = 0;
        while j < self.coeff_count
            invariant
                j <= old(self)@.coeff_count,
                self@ == old(self)@,
                old(self)@.data is Ints,
                other@.data is Ints,
                raw_dims_ok(old(self)@),
                raw_dims_ok(other@),
                raw_shape_eq(old(self)@, other@),
                modulus@.len() >= old(self)@.coeff_count,
                old(self)@.coeff_count >= 1,
                forall|k: int| 0 <= k < j ==> #[trigger] modulus@[k] >= 1,
            decreases old(self)@.coeff_count - j,
        {
            if modulus[j] == 0 {
                proof {
                    assert(!(modulus@[j as int] >= 1));
                }
                return Err(HeError::Operation(OperationIssue::ValueOutOfRange));
            }
            j = j + 1;
        }
        let m0 = modulus[0];
        let n: usize = self.degree;
        let mut v: Vec<u64> = Vec::new();
        let mut i: usize = 0;
        while i < n
            invariant
                i <= n == old(self)@.degree,
                self@ == old(self)@,
                old(self)@.data == SlotsV::Ints(a@),
                other@.data == SlotsV::Ints(b@),
                a@.len() <= n,
                b@.len() <= n,
                m0 >= 1,
                v@.len() == i,
                forall|j2: int|
                    0 <= j2 < i ==> v@[j2] == raw_block_add(a@, b@, n as int, m0)[j2],
            decreases n - i,
        {
            let x: u64 = if i < a.len() {
                a[i]
            } else {
                0
            };
            let y: u64 = if i < b.len() {
                b[i]
            } else {
                0
            };
            let sum: u128 = (x as u128) + (y as u128);
            let red: u64 = (sum % (m0 as u128)) as u64;
            v.push(red);
            i = i + 1;
        }
        proof {
            assert(v@ =~= raw_block_add(a@, b@, n as int, m0));
        }
        self.data = SlotData::Ints(v);
        Ok(())
    }

    /// Writes the ciphertext as a byte stream.
    pub fn save(&self) -> (r: Result<Vec<u8>, HeError>)
        requires
            self@.wf(),
        ensures
            match r {
                Ok(bytes) => bytes@ == encode_words(ciphertext_words(self@)),
                Err(_) => false,
            },
    {
        let mut ws: Vec<u64> = Vec::new();
        ws.push(WKIND_CIPHERTEXT);
        ws.push(self.scheme as u64);
        ws.push(self.degree as u64);
        ws.push(self.plain_modulus);
        ws.push(self.ct_size as u64);
        ws.push(self.level as u64);
        ws.push(self.parms_id.w0);
        ws.push(self.parms_id.w1);
        ws.push(self.parms_id.w2);
        ws.push(self.parms_id.w3);
        push_u128(&mut ws, self.scale);
        ws.push(if self.budget < 0 {
            1
        } else {
            0
        });
        ws.push(if self.budget < 0 {
            if self.budget == i64::MIN {
                0x8000_0000_0000_0000u64
            } else {
                (-self.budget) as u64
            }
        } else {
            self.budget as u64
        });
        ws.push(self.coeff_count as u64);
        push_slot_data(&mut ws, &self.data);
        proof {
            lemma_slots_words_len(self@.data);
            assert(self.ct_size * self.coeff_count <= 32 * 64 && self.ct_size
                * self.coeff_count * self.degree <= 32 * 64 * 32768 && self.degree
                <= self.ct_size * self.coeff_count * self.degree) by (nonlinear_arith)
                requires
                    2 <= self.ct_size <= 32,
                    1 <= self.coeff_count <= 64,
                    self.degree <= 32768,
            ;
        }
        let raw: usize = self.ct_size * self.coeff_count * self.degree;
        let dlen: usize = match &self.data {
            SlotData::Ints(v) => v.len(),
            SlotData::Fixes(v) => v.len(),
        };
        let fill: usize = raw - dlen;
        let ghost base = ws@;
        let mut k: usize = 0;
        while k < fill
            invariant
                k <= fill,
                ws@ == base + frame_zeros(fill as int).take(k as int),
            decreases fill - k,
        {
            ws.push(0);
            proof {
                assert(frame_zeros(fill as int).take(k + 1) =~= frame_zeros(
                    fill as int,
                ).take(k as int).push(0u64));
            }
            k = k + 1;
        }
        proof {
            assert(frame_zeros(fill as int).take(fill as int) =~= frame_zeros(fill as int));
            assert(ws@ =~= ciphertext_words(self@));
        }
        Ok(encode_words_vec(&ws))
    }

    /// Reads a ciphertext back from a byte stream, bound to a context: the
    /// stream must name a chain point of that context, and every field must
    /// agree with the context's parameters.
    pub fn load(context: &Context, bytes: &[u8]) -> (r: Result<Ciphertext, HeError>)
        requires
            context@.wf(),
        ensures
            match r {
                Ok(c) => {
                    &&& parse_ciphertext(bytes@) == Some(c@)
                    &&& c@.wf()
                    &&& c@.ok_for(context@)
                },
                Err(e) => {
                    &&& e == HeError::Serialization
                    &&& match parse_ciphertext(bytes@) {
                        None => true,
                        Some(v) => !v.ok_for(context@),
                    }
                },
            },
    {
        let pool_handle = MemoryPoolHandle::to_thread_local_pool()?;
        Ciphertext::load_in_pool(context, pool_handle, bytes)
    }

    /// Reads a ciphertext back from a byte stream into the given pool.
    pub fn load_in_pool(context: &Context, pool_handle: MemoryPoolHandle, bytes: &[u8]) -> (r:
        Result<Ciphertext, HeError>)
        requires
            context@.wf(),
        ensures
            match r {
                Ok(c) => {
                    &&& parse_ciphertext(bytes@) == Some(c@)
                    &&& c@.wf()
                    &&& c@.ok_for(context@)
                },
                Err(e) => {
                    &&& e == HeError::Serialization
                    &&& match parse_ciphertext(bytes@) {
                        None => true,
                        Some(v) => !v.ok_for(context@),
                    }
                },
            },
    {
        let ws = match decode_words_vec(bytes) {
            None => {
                return Err(HeError::Serialization);
            },
            Some(ws) => ws,
        };
        let c = match read_ciphertext_words(&ws, pool_handle) {
            None => {
                return Err(HeError::Serialization);
            },
            Some(c) => c,
        };
        if !(c.scheme == context.params.scheme && c.degree == context.params.poly_modulus_degree
            && c.plain_modulus == context.params.plain_modulus && c.level
            < context.chain_ids.len()) {
            return Err(HeError::Serialization);
        }
        let id = context.chain_ids[c.level];
        if !(id.w0 == c.parms_id.w0 && id.w1 == c.parms_id.w1 && id.w2 == c.parms_id.w2 && id.w3
            == c.parms_id.w3) {
            return Err(HeError::Serialization);
        }
        if c.coeff_count != context.data_count - c.level {
            return Err(HeError::Serialization);
        }
        Ok(c)
    }
}

/// Whether the ciphertext's dimensions and slot count fit the flat residue
/// storage.
pub open spec fn raw_dims_ok(v: CiphertextV) -> bool {
    &&& v.ct_size <= CT_SIZE_MAX
    &&& v.coeff_count <= 64
    &&& v.degree <= 32768
    &&& v.data.len() <= v.degree as int
}

/// Whether two ciphertexts span residue storage of the same shape.
pub open spec fn raw_shape_eq(a: CiphertextV, b: CiphertextV) -> bool {
    &&& a.ct_size == b.ct_size
    &&& a.coeff_count == b.coeff_count
    &&& a.degree == b.degree
}

/// The elementwise sum of two first residue blocks modulo the first
/// modulus, over the full block width with implicit zero extension.
pub open spec fn raw_block_add(a: Seq<u64>, b: Seq<u64>, n: int, m: u64) -> Seq<u64> {
    Seq::new(
        (if n >= 0 {
            n
        } else {
            0
        }) as nat,
        |i: int|
            (((if 0 <= i < a.len() {
                a[i]
            } else {
                0u64
            } + if 0 <= i < b.len() {
                b[i]
            } else {
                0u64
            }) as int) % (m as int)) as u64,
    )
}

/// The flat residue view of an integer-scheme ciphertext: the slot values
/// padded to the degree, then zeros for every further block.
pub open spec fn raw_rns(v: CiphertextV) -> Seq<u64> {
    Seq::new(
        (v.ct_size * v.coeff_count * v.degree) as nat,
        |i: int|
            if i < v.data->Ints_0.len() {
                v.data->Ints_0[i]
            } else {
                0u64
            },
    )
}

/// The magnitude word of a budget value.
pub open spec fn budget_mag(b: i64) -> u64 {
    if b < 0 {
        (-(b as int)) as u64
    } else {
        b as u64
    }
}

/// The number of residues the ciphertext's polynomial components span:
/// `size` components of `coeff_count` blocks of `degree` residues.
pub open spec fn raw_word_count(v: CiphertextV) -> int {
    v.ct_size * v.coeff_count * v.degree
}

/// A run of zero words.
pub open spec fn frame_zeros(n: int) -> Seq<u64> {
    Seq::new(
        (if n >= 0 {
            n
        } else {
            0
        }) as nat,
        |i: int| 0u64,
    )
}

/// The words of a ciphertext: the header, the stored slot values, then one
/// zero word for every remaining residue of the flat polynomial storage.
/// The frame makes the serialized form proportional to the chain level, so
/// switching a ciphertext down the chain shrinks its byte form.
pub open spec fn ciphertext_words(v: CiphertextV) -> Seq<u64> {
    seq![
        WKIND_CIPHERTEXT,
        v.scheme as u64,
        v.degree as u64,
        v.plain_modulus,
        v.ct_size as u64,
        v.level as u64,
        v.parms_id.w0,
        v.parms_id.w1,
        v.parms_id.w2,
        v.parms_id.w3,
        u128_lo(v.scale),
        u128_hi(v.scale),
        if v.budget < 0 {
            1u64
        } else {
            0u64
        },
        budget_mag(v.budget),
        v.coeff_count as u64,
    ] + crate::plain_text::slots_words(v.data) + frame_zeros(
        raw_word_count(v) - v.data.len(),
    )
}

/// Reads a ciphertext back from a word stream, checking shape and ranges.
pub open spec fn parse_ciphertext_words(ws: Seq<u64>) -> Option<CiphertextV> {
    if ws.len() < 17 {
        None
    } else if ws[0] != WKIND_CIPHERTEXT || ws[1] > 255 || ws[2] > 32768 || ws[4] > CT_SIZE_MAX as u64
        || ws[5] >= 64 || ws[12] > 1 || ws[13] > BUDGET_MAX as u64 || ws[14] > 64 {
        None
    } else if ws[15] > 1 || ws[16] > SLOTS_MAX as u64 {
        None
    } else {
        let raw = (ws[4] as int) * (ws[14] as int) * (ws[2] as int);
        let n = ws[16] as int;
        let payload = if ws[15] == 0 {
            n
        } else {
            3 * n
        };
        let data_end = 17 + payload;
        if ws.len() + n != data_end + raw {
            None
        } else if exists|i: int| data_end <= i < ws.len() && #[trigger] ws[i] != 0u64 {
            None
        } else {
            match parse_slots(ws, 15, data_end) {
                None => None,
                Some(data) => {
                let v = CiphertextV {
                    data,
                    ct_size: ws[4] as usize,
                    level: ws[5] as usize,
                    parms_id: (ParmsId { w0: ws[6], w1: ws[7], w2: ws[8], w3: ws[9] }),
                    scale: u128_of(ws[10], ws[11]),
                    budget: if ws[12] == 1 {
                        (-(ws[13] as int)) as i64
                    } else {
                        ws[13] as i64
                    },
                    degree: ws[2] as usize,
                    coeff_count: ws[14] as usize,
                    plain_modulus: ws[3],
                    scheme: ws[1] as u8,
                };
                    if v.wf() {
                        Some(v)
                    } else {
                        None
                    }
                },
            }
        }
    }
}

/// Reads a ciphertext back from a byte stream.
pub open spec fn parse_ciphertext(bs: Seq<u8>) -> Option<CiphertextV> {
    match decode_words(bs) {
        None => None,
        Some(ws) => parse_ciphertext_words(ws),
    }
}

/// Reads a ciphertext back from a word stream.
pub fn read_ciphertext_words(ws: &Vec<u64>, pool: MemoryPoolHandle) -> (r: Option<Ciphertext>)
    ensures
        match (r, parse_ciphertext_words(ws@)) {
            (Some(c), Some(v)) => c@ == v,
            (None, None) => true,
            _ => false,
        },
{
    if ws.len() < 17 {
        return None;
    }
    if ws[0] != WKIND_CIPHERTEXT || ws[1] > 255 || ws[2] > 32768 || ws[4] > CT_SIZE_MAX as u64
        || ws[5] >= 64 || ws[12] > 1 || ws[13] > BUDGET_MAX as u64 || ws[14] > 64 {
        return None;
    }
    let tag = ws[15];
    let n64 = ws[16];
    if tag > 1 || n64 > SLOTS_MAX as u64 {
        return None;
    }
    let n = n64 as usize;
    proof {
        assert((ws@[4] as int) * (ws@[14] as int) <= 32 * 64 && (ws@[4] as int) * (
        ws@[14] as int) * (ws@[2] as int) <= 32 * 64 * 32768) by (nonlinear_arith)
            requires
                ws@[4] <= 32,
                ws@[14] <= 64,
                ws@[2] <= 32768,
        ;
    }
    let raw: usize = (ws[4] as usize) * (ws[14] as usize) * (ws[2] as usize);
    let payload: usize = if tag == 0 {
        n
    } else {
        3 * n
    };
    let data_end: usize = 17 + payload;
    if (ws.len() as u128) + (n as u128) != (data_end as u128) + (raw as u128) {
        return None;
    }
    if data_end > ws.len() {
        return None;
    }
    let mut i: usize = data_end;
    while i < ws.len()
        invariant
            data_end <= i <= ws@.len(),
            ws@.len() <= usize::MAX,
            17 <= ws@.len(),
            ws@[15] <= 1,
            ws@[16] <= SLOTS_MAX as u64,
            data_end as int == 17 + (if ws@[15] == 0 {
                ws@[16] as int
            } else {
                3 * (ws@[16] as int)
            }),
            forall|j: int| data_end <= j < i ==> #[trigger] ws@[j] == 0u64,
        decreases ws@.len() - i,
    {
        if ws[i] != 0 {
            proof {
                assert(ws@[i as int] != 0u64);
            }
            return None;
        }
        i = i + 1;
    }
    let data = match read_slot_data(ws, 15, data_end) {
        None => {
            return None;
        },
        Some(d) => d,
    };
    let budget: i64 = if ws[12] == 1 {
        -(ws[13] as i64)
    } else {
        ws[13] as i64
    };
    let c = Ciphertext {
        data,
        ct_size: ws[4] as usize,
        level: ws[5] as usize,
        parms_id: ParmsId { w0: ws[6], w1: ws[7], w2: ws[8], w3: ws[9] },
        scale: crate::codec::join_u128(ws[10], ws[11]),
        budget,
        degree: ws[2] as usize,
        coeff_count: ws[14] as usize,
        plain_modulus: ws[3],
        scheme: ws[1] as u8,
        pool,
    };
    if !ciphertext_wf_exec(&c) {
        return None;
    }
    Some(c)
}

/// Runtime check of [`CiphertextV::wf`].
pub fn ciphertext_wf_exec(c: &Ciphertext) -> (r: bool)
    ensures
        r == c@.wf(),
{
    if c.level >= 64 || c.ct_size < 2 || c.ct_size > CT_SIZE_MAX || c.coeff_count < 1
        || c.coeff_count > 64 {
        return false;
    }
    let d = c.degree;
    if !(d == 1024 || d == 2048 || d == 4096 || d == 8192 || d == 16384 || d == 32768) {
        return false;
    }
    if c.budget < -BUDGET_MAX || c.budget > BUDGET_MAX {
        return false;
    }
    match &c.data {
        SlotData::Ints(v) => {
            if !(c.scheme == SCHEME_BFV && 2 <= c.plain_modulus && c.plain_modulus
                <= MODULUS_VALUE_MAX && c.scale == 0 && v.len() <= c.degree && v.len()
                <= SLOTS_MAX) {
                return false;
            }
            let mut i: usize = 0;
            while i < v.len()
                invariant
                    i <= v@.len(),
                    c@.data == SlotsV::Ints(v@),
                    forall|j: int| 0 <= j < i ==> #[trigger] v@[j] < c@.plain_modulus,
                decreases v@.len() - i,
            {
                if v[i] >= c.plain_modulus {
                    proof {
                        assert(!(v@[i as int] < c@.plain_modulus));
                    }
                    return false;
                }
                i = i + 1;
            }
            true
        },
        SlotData::Fixes(v) => {
            if !(c.scheme == SCHEME_CKKS && c.plain_modulus == 0 && 1 <= c.scale && c.scale
                <= SCALE_LIMIT && v.len() == c.degree / 2 && v.len() <= SLOTS_MAX) {
                return false;
            }
            let mut i: usize = 0;
            while i < v.len()
                invariant
                    i <= v@.len(),
                    c@.data == SlotsV::Fixes(v@),
                    forall|j: int| 0 <= j < i ==> -MANT_LIMIT <= #[trigger] v@[j] <= MANT_LIMIT,
                decreases v@.len() - i,
            {
                let m = v[i];
                if m < -MANT_LIMIT || m > MANT_LIMIT {
                    proof {
                        assert(!(-MANT_LIMIT <= v@[i as int] <= MANT_LIMIT));
                    }
                    return false;
                }
                i = i + 1;
            }
            true
        },
    }
}

/// Raw write-then-read round trip: a flat residue array the raw write
/// accepts comes back unchanged as the leading residues of the raw view.
pub proof fn lemma_raw_roundtrip(v: CiphertextV, poly: Seq<u64>)
    requires
        v.data is Ints,
        raw_dims_ok(v),
        poly.len() <= raw_word_count(v),
        forall|i: int| v.degree <= i < poly.len() ==> #[trigger] poly[i] == 0u64,
    ensures
        ({
            let keep = if poly.len() <= v.degree as int {
                poly.len() as int
            } else {
                v.degree as int
            };
            let written = CiphertextV { data: SlotsV::Ints(poly.take(keep)), ..v };
            raw_rns(written).take(poly.len() as int) == poly
        }),
{
    let keep = if poly.len() <= v.degree as int {
        poly.len() as int
    } else {
        v.degree as int
    };
    let written = CiphertextV { data: SlotsV::Ints(poly.take(keep)), ..v };
    assert forall|i: int| 0 <= i < poly.len() implies raw_rns(written)[i] == poly[i] by {
        if i < keep {
            assert(written.data->Ints_0[i] == poly[i]);
        }
    }
    assert(raw_rns(written).take(poly.len() as int) =~= poly);
}

/// Reading a well-formed ciphertext's byte form yields the ciphertext back.
pub proof fn lemma_ciphertext_roundtrip(v: CiphertextV)
    requires
        v.wf(),
    ensures
        parse_ciphertext(encode_words(ciphertext_words(v))) == Some(v),
{
    lemma_slots_words_len(v.data);
    let raw = raw_word_count(v);
    assert(v.data.len() <= v.degree as int);
    assert(v.data.len() <= raw && raw <= 32 * 64 * 32768) by (nonlinear_arith)
        requires
            2 <= v.ct_size <= 32,
            1 <= v.coeff_count <= 64,
            v.degree <= 32768,
            raw == v.ct_size * v.coeff_count * v.degree,
            v.data.len() <= v.degree,
    ;
    lemma_words_roundtrip(ciphertext_words(v));
    let ws = ciphertext_words(v);
    lemma_u128_split_join(v.scale);
    let fill = raw - v.data.len();
    let payload = crate::plain_text::slots_words(v.data).len() - 2;
    let data_end = 17 + payload;
    assert(ws.len() == data_end + fill);
    assert forall|i: int| data_end <= i < ws.len() implies #[trigger] ws[i] == 0u64 by {
        assert(ws[i] == frame_zeros(fill)[i - data_end]);
    }
    match v.data {
        SlotsV::Ints(s) => {
            assert(ws.subrange(17, 17 + s.len() as int) =~= s);
            assert(parse_slots(ws, 15, data_end) == Some(v.data));
        },
        SlotsV::Fixes(s) => {
            let n = s.len() as int;
            assert forall|i: int| 0 <= i < n implies crate::codec::i128_words_ok(
                #[trigger] ws[17 + 3 * i],
                ws[17 + 3 * i + 1],
                ws[17 + 3 * i + 2],
            ) by {
                crate::plain_text::lemma_fixes_words_index(s, i);
                crate::codec::lemma_i128_split_join(s[i]);
                assert(ws.subrange(17 + 3 * i, 17 + 3 * i + 3)
                    =~= crate::plain_text::fixes_words(s).subrange(3 * i, 3 * i + 3));
                assert(ws[17 + 3 * i] == crate::codec::i128_words(s[i])[0]);
                assert(ws[17 + 3 * i + 1] == crate::codec::i128_words(s[i])[1]);
                assert(ws[17 + 3 * i + 2] == crate::codec::i128_words(s[i])[2]);
            }
            let parsed = Seq::new(
                n as nat,
                |i: int| crate::codec::i128_of(ws[17 + 3 * i], ws[17 + 3 * i + 1], ws[17 + 3 * i + 2]),
            );
            assert forall|i: int| 0 <= i < n implies parsed[i] == s[i] by {
                crate::plain_text::lemma_fixes_words_index(s, i);
                crate::codec::lemma_i128_split_join(s[i]);
                assert(ws.subrange(17 + 3 * i, 17 + 3 * i + 3)
                    =~= crate::plain_text::fixes_words(s).subrange(3 * i, 3 * i + 3));
                assert(ws[17 + 3 * i] == crate::codec::i128_words(s[i])[0]);
                assert(ws[17 + 3 * i + 1] == crate::codec::i128_words(s[i])[1]);
                assert(ws[17 + 3 * i + 2] == crate::codec::i128_words(s[i])[2]);
            }
            assert(parsed =~= s);
            assert(parse_slots(ws, 15, data_end) == Some(v.data));
        },
    }
}

} // verus!
