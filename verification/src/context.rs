//! The validated, frozen view of a parameter set.
//!
//! `Context::create` checks a parameter set against a target security level
//! and, on success, freezes it together with the modulus-switching chain:
//! one parameter identity per level, level 0 carrying the full data modulus
//! and each deeper level dropping one prime.  Everything downstream — keys,
//! plaintexts, ciphertexts, encoders, the evaluator — carries or compares
//! these identities.

use vstd::prelude::*;

use crate::error::HeError;
use crate::error::ParameterIssue;
use crate::params::clone_u64_vec;
use crate::params::coeff_chain_ok;
use crate::params::coeff_value_ok;
use crate::params::degree_ok;
use crate::params::max_coeff_bits_128;
use crate::params::scheme_ok;
use crate::params::Params;
use crate::params::ParamsV;
use crate::small_modulus::bit_length;
use crate::small_modulus::bitlen;
use crate::small_modulus::lemma_bitlen_upper;
use crate::small_modulus::MODULUS_VALUE_MAX;
use crate::SCHEME_BFV;
use crate::SCHEME_CKKS;

verus! {

/// A parameter identity: a four-word fingerprint naming one point in the
/// modulus-switching chain.
#[derive(Clone, Copy, Debug, PartialEq, Eq, Structural)]
pub struct ParmsId {
    /// First fingerprint word.
    pub w0: u64,
    /// Second fingerprint word.
    pub w1: u64,
    /// Third fingerprint word.
    pub w2: u64,
    /// Fourth fingerprint word.
    pub w3: u64,
}

/// The seed the fingerprint mixing starts from.
pub const FP_SEED: u64 = 0x243F_6A88_85A3_08D3;

/// The multiplier of the fingerprint mixing step.
pub const FP_MUL: u64 = 0x9E37_79B9_7F4A_7C15;

/// The increment of the fingerprint mixing step.
pub const FP_ADD: u64 = 0xD1B5_4A32_D192_ED03;

/// The prime modulus the fingerprint mixing reduces by.
pub const FP_MOD: u64 = 0xFFFF_FFFF_FFFF_FFC5;

/// One fingerprint mixing step.
#[verifier::opaque]
pub open spec fn mix64(h: u64, x: u64) -> u64 {
    ((((h ^ x) as int) * (FP_MUL as int) + (FP_ADD as int)) % (FP_MOD as int)) as u64
}

/// Folds a word sequence into a running fingerprint, front first.
pub open spec fn fp_fold(h: u64, s: Seq<u64>) -> u64
    decreases s.len(),
{
    if s.len() == 0 {
        h
    } else {
        fp_fold(mix64(h, s[0]), s.skip(1))
    }
}

/// The parameter identity of a chain point: a fingerprint of the scheme, the
/// degree, the plaintext modulus and the prime prefix in force at that point.
pub open spec fn chain_parms_id(scheme: u8, degree: usize, plain: u64, primes: Seq<u64>) -> ParmsId {
    let h = fp_fold(
        mix64(mix64(mix64(FP_SEED, scheme as u64), degree as u64), plain),
        primes,
    );
    ParmsId { w0: mix64(h, 0), w1: mix64(h, 1), w2: mix64(h, 2), w3: mix64(h, 3) }
}

/// The total bit length of a prime sequence.
pub open spec fn sum_bits(s: Seq<u64>) -> int
    decreases s.len(),
{
    if s.len() == 0 {
        0
    } else {
        bitlen(s[0] as nat) + sum_bits(s.skip(1))
    }
}

/// Appending a prime adds its bit length to the total.
pub proof fn lemma_sum_bits_snoc(s: Seq<u64>, x: u64)
    ensures
        sum_bits(s.push(x)) == sum_bits(s) + bitlen(x as nat),
    decreases s.len(),
{
    let t = s.push(x);
    assert(sum_bits(t) == bitlen(t[0] as nat) + sum_bits(t.skip(1)));
    if s.len() == 0 {
        assert(t.skip(1) =~= Seq::<u64>::empty());
        assert(sum_bits(Seq::<u64>::empty()) == 0);
    } else {
        assert(t.skip(1) =~= s.skip(1).push(x));
        lemma_sum_bits_snoc(s.skip(1), x);
        assert(sum_bits(s) == bitlen(s[0] as nat) + sum_bits(s.skip(1)));
        assert(t[0] == s[0]);
    }
}

/// Validates a parameter set against a security level; `None` means
/// acceptable, otherwise the first failing condition is named.
pub open spec fn params_validate(v: ParamsV, security_level: u8) -> Option<ParameterIssue> {
    if !scheme_ok(v.scheme) {
        Some(ParameterIssue::UnsupportedScheme)
    } else if security_level != 128 {
        Some(ParameterIssue::UnsupportedSecurityLevel)
    } else if !degree_ok(v.degree) {
        Some(ParameterIssue::InvalidDegree)
    } else if !coeff_chain_ok(v.coeff) {
        Some(ParameterIssue::InvalidCoeffModulus)
    } else if sum_bits(v.coeff) > max_coeff_bits_128(v.degree) {
        Some(ParameterIssue::InsecureParameters)
    } else if v.scheme == SCHEME_BFV && !(2 <= v.plain && v.plain <= MODULUS_VALUE_MAX) {
        Some(ParameterIssue::InvalidPlainModulus)
    } else if v.scheme == SCHEME_CKKS && v.plain != 0 {
        Some(ParameterIssue::InvalidPlainModulus)
    } else {
        None
    }
}

/// The number of data primes of a validated chain: the last prime is
/// reserved for key material whenever more than one is present.
pub open spec fn spec_data_count(coeff_len: int) -> int {
    if coeff_len >= 2 {
        coeff_len - 1
    } else {
        coeff_len
    }
}

/// The abstract value of a context.
pub struct ContextV {
    /// The frozen parameter set.
    pub params: ParamsV,
    /// The validated security level, in bits.
    pub security_level: u8,
    /// Whether the modulus-switching chain was expanded.
    pub expand_mod_chain: bool,
    /// The number of data primes at the top of the chain.
    pub data_count: usize,
    /// The number of usable chain levels.
    pub levels: usize,
    /// The parameter identity of each level.
    pub chain: Seq<ParmsId>,
}

impl ContextV {
    /// The primes in force at chain level `l`.
    pub open spec fn level_primes(&self, l: int) -> Seq<u64> {
        self.params.coeff.take(self.data_count - l)
    }

    /// The parameter identity of chain level `l`.
    pub open spec fn level_id(&self, l: int) -> ParmsId {
        chain_parms_id(
            self.params.scheme,
            self.params.degree,
            self.params.plain,
            self.level_primes(l),
        )
    }

    /// The noise budget of a fresh encryption at chain level `l`.
    pub open spec fn fresh_budget(&self, l: int) -> int {
        sum_bits(self.level_primes(l)) - bitlen(self.params.plain as nat)
    }

    /// The number of value slots per plaintext: the degree for the integer
    /// scheme, half the degree for the fractional scheme.
    pub open spec fn slot_count(&self) -> int {
        if self.params.scheme == SCHEME_CKKS {
            self.params.degree as int / 2
        } else {
            self.params.degree as int
        }
    }

    /// Everything `Context::create` establishes.
    pub open spec fn wf(&self) -> bool {
        &&& params_validate(self.params, self.security_level) is None
        &&& self.data_count == spec_data_count(self.params.coeff.len() as int)
        &&& self.levels == if self.expand_mod_chain {
            self.data_count as int
        } else {
            1
        }
        &&& 1 <= self.levels <= self.data_count
        &&& self.chain.len() == self.levels
        &&& forall|l: int| 0 <= l < self.levels ==> self.chain[l] == #[trigger] self.level_id(l)
    }
}

/// A validated, read-only view of parameters plus the modulus-switching
/// chain.
pub struct Context {
    /// The frozen parameter set.
    pub params: Params,
    /// The validated security level, in bits.
    pub security_level: u8,
    /// Whether the modulus-switching chain was expanded.
    pub expand_mod_chain: bool,
    /// The number of data primes at the top of the chain.
    pub data_count: usize,
    /// The number of usable chain levels.
    pub levels: usize,
    /// The parameter identity of each level.
    pub chain_ids: Vec<ParmsId>,
}

impl View for Context {
    type V = ContextV;

    open spec fn view(&self) -> ContextV {
        ContextV {
            params: self.params@,
            security_level: self.security_level,
            expand_mod_chain: self.expand_mod_chain,
            data_count: self.data_count,
            levels: self.levels,
            chain: self.chain_ids@,
        }
    }
}

/// One fingerprint mixing step.
pub fn mix64_exec(h: u64, x: u64) -> (r: u64)
    ensures
        r == mix64(h, x),
{
    proof {
        reveal(mix64);
    }
    let t: u128 = ((h ^ x) as u128) * (FP_MUL as u128) + (FP_ADD as u128);
    (t % (FP_MOD as u128)) as u64
}

/// Computes the parameter identity of a chain point from the first `count`
/// primes.
pub fn compute_parms_id(
    scheme: u8,
    degree: usize,
    plain: u64,
    primes: &Vec<u64>,
    count: usize,
) -> (r: ParmsId)
    requires
        count <= primes@.len(),
    ensures
        r == chain_parms_id(scheme, degree, plain, primes@.take(count as int)),
{
    let mut h = mix64_exec(mix64_exec(mix64_exec(FP_SEED, scheme as u64), degree as u64), plain);
    let mut i: usize = 0;
    proof {
        assert(primes@.take(count as int).skip(0) =~= primes@.take(count as int));
    }
    while i < count
        invariant
            i <= count <= primes@.len(),
            fp_fold(h, primes@.take(count as int).skip(i as int)) == fp_fold(
                mix64(mix64(mix64(FP_SEED, scheme as u64), degree as u64), plain),
                primes@.take(count as int),
            ),
        decreases count - i,
    {
        proof {
            let rest = primes@.take(count as int).skip(i as int);
            assert(rest[0] == primes@[i as int]);
            assert(rest.skip(1) =~= primes@.take(count as int).skip(i + 1));
        }
        h = mix64_exec(h, primes[i]);
        i = i + 1;
    }
    proof {
        assert(primes@.take(count as int).skip(count as int) =~= Seq::<u64>::empty());
    }
    ParmsId {
        w0: mix64_exec(h, 0),
        w1: mix64_exec(h, 1),
        w2: mix64_exec(h, 2),
        w3: mix64_exec(h, 3),
    }
}

/// The total bit length of the first `count` primes.
pub fn sum_bits_exec(primes: &Vec<u64>, count: usize) -> (r: u64)
    requires
        count <= primes@.len(),
        count <= 64,
    ensures
        r == sum_bits(primes@.take(count as int)),
        r <= 64 * count,
{
    let mut acc: u64 = 0;
    let mut i: usize = 0;
    proof {
        assert(primes@.take(count as int).take(0) =~= Seq::<u64>::empty());
    }
    while i < count
        invariant
            i <= count <= primes@.len(),
            count <= 64,
            acc == sum_bits(primes@.take(i as int)),
            acc <= 64 * i,
        decreases count - i,
    {
        let b = bit_length(primes[i]);
        proof {
            vstd::arithmetic::power2::lemma2_to64();
            lemma_bitlen_upper(primes@[i as int] as nat, 64);
            lemma_sum_bits_snoc(primes@.take(i as int), primes@[i as int]);
            assert(primes@.take(i + 1) =~= primes@.take(i as int).push(primes@[i as int]));
        }
        acc = acc + b;
        i = i + 1;
    }
    acc
}

impl Context {
    /// Validates `params` against the requested security level and freezes it
    /// together with the modulus-switching chain.  Rejections carry the first
    /// failing condition, so a caller can tell insecure parameters from
    /// malformed ones and from an unsupported scheme.
    pub fn create(params: Params, security_level: u8, expand_mod_chain: bool) -> (r: Result<
        Context,
        HeError,
    >)
        ensures
            match r {
                Ok(c) => {
                    &&& params_validate(params@, security_level) is None
                    &&& c@.wf()
                    &&& c@.params == params@
                    &&& c@.security_level == security_level
                    &&& c@.expand_mod_chain == expand_mod_chain
                },
                Err(e) => {
                    &&& params_validate(params@, security_level) is Some
                    &&& e == HeError::Parameter(params_validate(params@, security_level)->Some_0)
                },
            },
    {
        if params.scheme != SCHEME_BFV && params.scheme != SCHEME_CKKS {
            return Err(HeError::Parameter(ParameterIssue::UnsupportedScheme));
        }
        if security_level != 128 {
            return Err(HeError::Parameter(ParameterIssue::UnsupportedSecurityLevel));
        }
        let d = params.poly_modulus_degree;
        if !(d == 1024 || d == 2048 || d == 4096 || d == 8192 || d == 16384 || d == 32768) {
            return Err(HeError::Parameter(ParameterIssue::InvalidDegree));
        }
        let n = params.coeff_modulus.len();
        if n < 1 || n > 64 {
            return Err(HeError::Parameter(ParameterIssue::InvalidCoeffModulus));
        }
        let mut i: usize = 0;
        while i < n
            invariant
                i <= n == params.coeff_modulus@.len(),
                scheme_ok(params@.scheme),
                security_level == 128,
                degree_ok(params@.degree),
                1 <= n <= 64,
                forall|j: int| 0 <= j < i ==> coeff_value_ok(#[trigger] params.coeff_modulus@[j]),
            decreases n - i,
        {
            let v = params.coeff_modulus[i];
            if v < 2 || v > MODULUS_VALUE_MAX {
                proof {
                    assert(!coeff_value_ok(params.coeff_modulus@[i as int]));
                }
                return Err(HeError::Parameter(ParameterIssue::InvalidCoeffModulus));
            }
            i = i + 1;
        }
        let total = sum_bits_exec(&params.coeff_modulus, n);
        let max_bits: u64 = if d == 1024 {
            27
        } else if d == 2048 {
            54
        } else if d == 4096 {
            109
        } else if d == 8192 {
            218
        } else if d == 16384 {
            438
        } else {
            881
        };
        proof {
            assert(params.coeff_modulus@.take(n as int) =~= params.coeff_modulus@);
        }
        if total > max_bits {
            return Err(HeError::Parameter(ParameterIssue::InsecureParameters));
        }
        if params.scheme == SCHEME_BFV && (params.plain_modulus < 2 || params.plain_modulus
            > MODULUS_VALUE_MAX) {
            return Err(HeError::Parameter(ParameterIssue::InvalidPlainModulus));
        }
        if params.scheme == SCHEME_CKKS && params.plain_modulus != 0 {
            return Err(HeError::Parameter(ParameterIssue::InvalidPlainModulus));
        }
        let data_count: usize = if n >= 2 {
            n - 1
        } else {
            n
        };
        let levels: usize = if expand_mod_chain {
            data_count
        } else {
            1
        };
        let mut chain_ids: Vec<ParmsId> = Vec::new();
        let mut l: usize = 0;
        while l < levels
            invariant
                l <= levels,
                1 <= levels <= data_count,
                data_count < params.coeff_modulus@.len() + 1,
                chain_ids@.len() == l,
                forall|k: int|
                    0 <= k < l ==> chain_ids@[k] == chain_parms_id(
                        params.scheme,
                        params.poly_modulus_degree,
                        params.plain_modulus,
                        #[trigger] params.coeff_modulus@.take(data_count - k),
                    ),
            decreases levels - l,
        {
            let id = compute_parms_id(
                params.scheme,
                params.poly_modulus_degree,
                params.plain_modulus,
                &params.coeff_modulus,
                data_count - l,
            );
            chain_ids.push(id);
            l = l + 1;
        }
        let c = Context {
            params,
            security_level,
            expand_mod_chain,
            data_count,
            levels,
            chain_ids,
        };
        proof {
            assert forall|l2: int| 0 <= l2 < c@.levels implies c@.chain[l2] == #[trigger] c@.level_id(
                l2,
            ) by {
                assert(c@.chain[l2] == chain_parms_id(
                    c@.params.scheme,
                    c@.params.degree,
                    c@.params.plain,
                    c@.params.coeff.take(c@.data_count - l2),
                ));
            }
        }
        Ok(c)
    }

    /// The error name of the parameter validation: a created context is
    /// always valid.
    pub fn get_error_name(&self) -> (r: String)
        ensures
            r@ == "success"@,
    {
        String::from_str("success")
    }

    /// The error message of the parameter validation: a created context is
    /// always valid.
    pub fn get_error_msg(&self) -> (r: String)
        ensures
            r@ == "valid"@,
    {
        String::from_str("valid")
    }

    /// The security level the context was validated for.
    pub fn security_level(&self) -> (r: u8)
        ensures
            r == self.security_level,
    {
        self.security_level
    }

    /// The frozen parameter set.
    pub fn parameters(&self) -> (r: &Params)
        ensures
            r@ == self@.params,
    {
        &self.params
    }

    /// The parameter identity at the top of the modulus-switching chain.
    pub fn first_parms_id(&self) -> (r: Result<Vec<u64>, HeError>)
        requires
            self@.wf(),
        ensures
            match r {
                Ok(v) => v@ == seq![
                    self@.level_id(0).w0,
                    self@.level_id(0).w1,
                    self@.level_id(0).w2,
                    self@.level_id(0).w3,
                ],
                Err(_) => false,
            },
    {
        let id = self.chain_ids[0];
        let mut v: Vec<u64> = Vec::new();
        v.push(id.w0);
        v.push(id.w1);
        v.push(id.w2);
        v.push(id.w3);
        proof {
            assert(v@ =~= seq![id.w0, id.w1, id.w2, id.w3]);
        }
        Ok(v)
    }

    /// The number of coefficient primes in force for data at the top of the
    /// chain.  One prime of the parameter set is reserved for key material,
    /// so this count is one less than the parameter set's own chain length
    /// whenever more than one prime is present; it is the count that matters
    /// for ciphertext indexing.
    pub fn get_coeff_modulus_count(&self) -> (r: Result<u64, HeError>)
        ensures
            r == Ok::<u64, HeError>(self.data_count as u64),
    {
        Ok(self.data_count as u64)
    }

    /// The values of all coefficient primes of the parameter set, key prime
    /// included.
    pub fn get_coeff_modulus(&self) -> (r: Result<Vec<u64>, HeError>)
        ensures
            match r {
                Ok(v) => v@ == self@.params.coeff,
                Err(_) => false,
            },
    {
        Ok(clone_u64_vec(&self.params.coeff_modulus))
    }

    /// Looks `id` up in the chain, from level `from` down; the first match
    /// wins.
    pub fn find_level_from(&self, id: &ParmsId, from: usize) -> (r: Option<usize>)
        ensures
            match r {
                Some(l) => {
                    &&& from <= l < self@.chain.len()
                    &&& self@.chain[l as int] == *id
                    &&& forall|k: int| from <= k < l ==> self@.chain[k] != *id
                },
                None => forall|k: int| from <= k < self@.chain.len() ==> self@.chain[k] != *id,
            },
    {
        let mut l: usize = from;
        while l < self.chain_ids.len()
            invariant
                from <= l,
                forall|k: int| from <= k < l ==> self@.chain[k] != *id,
            decreases self.chain_ids@.len() - l,
        {
            let c = self.chain_ids[l];
            if c.w0 == id.w0 && c.w1 == id.w1 && c.w2 == id.w2 && c.w3 == id.w3 {
                return Some(l);
            }
            l = l + 1;
        }
        None
    }

    /// A deep copy of the context.
    pub fn duplicate(&self) -> (r: Context)
        ensures
            r@ == self@,
    {
        let params = Params {
            scheme: self.params.scheme,
            poly_modulus_degree: self.params.poly_modulus_degree,
            coeff_modulus: clone_u64_vec(&self.params.coeff_modulus),
            plain_modulus: self.params.plain_modulus,
        };
        let mut chain_ids: Vec<ParmsId> = Vec::new();
        let mut l: usize = 0;
        while l < self.chain_ids.len()
            invariant
                l <= self.chain_ids@.len(),
                chain_ids@ == self.chain_ids@.take(l as int),
            decreases self.chain_ids@.len() - l,
        {
            chain_ids.push(self.chain_ids[l]);
            proof {
                assert(self.chain_ids@.take(l + 1) =~= self.chain_ids@.take(l as int).push(
                    self.chain_ids@[l as int],
                ));
            }
            l = l + 1;
        }
        proof {
            assert(self.chain_ids@.take(self.chain_ids@.len() as int) =~= self.chain_ids@);
        }
        Context {
            params,
            security_level: self.security_level,
            expand_mod_chain: self.expand_mod_chain,
            data_count: self.data_count,
            levels: self.levels,
            chain_ids,
        }
    }
}

} // verus!
