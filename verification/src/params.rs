//! Encryption parameters: scheme, polynomial degree, coefficient-modulus
//! chain and plaintext modulus.
//!
//! A `Params` value is assembled through setters, then frozen into a
//! [`crate::Context`], which validates the combination against a security
//! level.  Parameters are serializable; [`Params::load`] inverts
//! [`Params::save`] exactly.

use vstd::prelude::*;
use vstd::arithmetic::power2::pow2;

use crate::codec::decode_words;
use crate::codec::decode_words_vec;
use crate::codec::encode_words;
use crate::codec::encode_words_vec;
use crate::codec::lemma_words_roundtrip;
use crate::error::HeError;
use crate::error::ParameterIssue;
use crate::small_modulus::MODULUS_VALUE_MAX;
use crate::small_modulus::SmallModulus;
use crate::small_modulus::pow2_u64;
use crate::SCHEME_BFV;
use crate::SCHEME_CKKS;

verus! {

/// Stream tag of a serialized parameter set.
pub const WKIND_PARAMS: u64 = 1;

/// The longest coefficient-modulus chain a parameter set may carry.
pub const COEFF_COUNT_MAX: usize = 64;

/// The two supported scheme tags.
pub open spec fn scheme_ok(s: u8) -> bool {
    s == SCHEME_BFV || s == SCHEME_CKKS
}

/// The supported polynomial modulus degrees: powers of two from 1024 to
/// 32768.
pub open spec fn degree_ok(d: usize) -> bool {
    d == 1024 || d == 2048 || d == 4096 || d == 8192 || d == 16384 || d == 32768
}

/// A coefficient modulus must be a usable (nonzero) modulus value.
pub open spec fn coeff_value_ok(v: u64) -> bool {
    2 <= v && v <= MODULUS_VALUE_MAX
}

/// A well-formed coefficient chain: nonempty, bounded, usable values.
pub open spec fn coeff_chain_ok(s: Seq<u64>) -> bool {
    &&& 1 <= s.len() <= COEFF_COUNT_MAX
    &&& forall|i: int| 0 <= i < s.len() ==> coeff_value_ok(#[trigger] s[i])
}

/// The modulus value standing for a requested bit size `b`: the largest
/// prime with exactly `b` binary digits, or zero when no such prime exists.
pub open spec fn bits_modulus(b: int) -> u64 {
    crate::small_modulus::prime_below(
        pow2(b as nat) - 1,
        pow2((b - 1) as nat) as int,
    ) as u64
}

/// A nonzero default modulus is a prime of exactly its requested bit size,
/// and a usable coefficient modulus value.
pub proof fn lemma_bits_modulus_prime(b: int)
    requires
        2 <= b <= 60,
        bits_modulus(b) != 0,
    ensures
        crate::small_modulus::is_prime(bits_modulus(b) as int),
        crate::small_modulus::bitlen(bits_modulus(b) as nat) == b,
        coeff_value_ok(bits_modulus(b)),
{
    let lo = pow2((b - 1) as nat) as int;
    let hi = pow2(b as nat) - 1;
    vstd::arithmetic::power2::lemma_pow2_strictly_increases((b - 1) as nat, b as nat);
    vstd::arithmetic::power2::lemma_pow2_strictly_increases(1, b as nat);
    if b < 60 {
        vstd::arithmetic::power2::lemma_pow2_strictly_increases(b as nat, 60);
    }
    vstd::arithmetic::power2::lemma2_to64();
    vstd::arithmetic::power2::lemma2_to64_rest();
    crate::small_modulus::lemma_prime_below_bounds(hi, lo);
    let p = crate::small_modulus::prime_below(hi, lo);
    crate::small_modulus::lemma_bitlen_range(p as nat, b as nat);
}

/// The plain values of a sequence of moduli.
pub open spec fn moduli_values(s: Seq<SmallModulus>) -> Seq<u64> {
    Seq::new(s.len(), |i: int| s[i].spec_value())
}

/// The moduli standing for a sequence of bit sizes.
pub open spec fn bits_moduli(s: Seq<u64>) -> Seq<u64> {
    Seq::new(s.len(), |i: int| bits_modulus(s[i] as int))
}

/// The moduli standing for a sequence of signed bit sizes.
pub open spec fn bits_moduli_i32(s: Seq<i32>) -> Seq<u64> {
    Seq::new(s.len(), |i: int| bits_modulus(s[i] as int))
}

/// The default coefficient bit sizes for the integer scheme at 128-bit
/// security, chosen to exhaust the security bound for each degree.
pub open spec fn bfv_default_bits(degree: usize) -> Seq<u64> {
    if degree == 1024 {
        seq![27u64]
    } else if degree == 2048 {
        seq![54u64]
    } else if degree == 4096 {
        seq![36u64, 36u64, 37u64]
    } else if degree == 8192 {
        seq![43u64, 43u64, 44u64, 44u64, 44u64]
    } else if degree == 16384 {
        seq![48u64, 48u64, 48u64, 49u64, 49u64, 49u64, 49u64, 49u64, 49u64]
    } else {
        seq![
            55u64, 55u64, 55u64, 55u64, 55u64, 55u64, 55u64, 55u64, 55u64, 55u64, 55u64,
            55u64, 55u64, 55u64, 55u64, 56u64,
        ]
    }
}

/// The largest total coefficient-modulus bit length that keeps 128-bit
/// security for each degree.
pub open spec fn max_coeff_bits_128(degree: usize) -> int {
    if degree == 1024 {
        27
    } else if degree == 2048 {
        54
    } else if degree == 4096 {
        109
    } else if degree == 8192 {
        218
    } else if degree == 16384 {
        438
    } else {
        881
    }
}

/// The abstract value of a parameter set.
pub struct ParamsV {
    /// Scheme tag.
    pub scheme: u8,
    /// Polynomial modulus degree (zero until set).
    pub degree: usize,
    /// Coefficient modulus values, in chain order.
    pub coeff: Seq<u64>,
    /// Plaintext modulus (zero until set; stays zero for the fractional
    /// scheme).
    pub plain: u64,
}

/// What a parameter set must look like to be written to or read from a byte
/// stream.
pub open spec fn params_savable(v: ParamsV) -> bool {
    &&& scheme_ok(v.scheme)
    &&& (v.degree == 0 || degree_ok(v.degree))
    &&& v.coeff.len() <= COEFF_COUNT_MAX
    &&& forall|i: int| 0 <= i < v.coeff.len() ==> coeff_value_ok(#[trigger] v.coeff[i])
    &&& (v.plain == 0 || 2 <= v.plain <= MODULUS_VALUE_MAX)
}

/// The word-level form of a serialized parameter set.
pub open spec fn params_words(v: ParamsV) -> Seq<u64> {
    seq![WKIND_PARAMS, v.scheme as u64, v.degree as u64, v.plain] + v.coeff
}

/// Reads a word stream back into a parameter-set value, checking shape and
/// ranges.
pub open spec fn parse_params_words(ws: Seq<u64>) -> Option<ParamsV> {
    if ws.len() < 4 {
        None
    } else if ws[0] != WKIND_PARAMS {
        None
    } else {
        let v = ParamsV {
            scheme: ws[1] as u8,
            degree: ws[2] as usize,
            coeff: ws.skip(4),
            plain: ws[3],
        };
        if ws[1] <= 255 && ws[2] <= 32768 && params_savable(v) {
            Some(v)
        } else {
            None
        }
    }
}

/// Reads a byte stream back into a parameter-set value.
pub open spec fn parse_params(bs: Seq<u8>) -> Option<ParamsV> {
    match decode_words(bs) {
        None => None,
        Some(ws) => parse_params_words(ws),
    }
}

/// Serializing a savable parameter set and reading it back yields the same
/// value.
pub proof fn lemma_params_roundtrip(v: ParamsV)
    requires
        params_savable(v),
    ensures
        parse_params(encode_words(params_words(v))) == Some(v),
{
    lemma_words_roundtrip(params_words(v));
    assert(params_words(v).skip(4) =~= v.coeff);
}

/// Scheme selection, polynomial degree, coefficient-modulus chain and
/// plaintext modulus, assembled by setters and frozen into a context.
pub struct Params {
    /// Scheme tag.
    pub scheme: u8,
    /// Polynomial modulus degree (zero until set).
    pub poly_modulus_degree: usize,
    /// Coefficient modulus values, in chain order.
    pub coeff_modulus: Vec<u64>,
    /// Plaintext modulus (zero until set).
    pub plain_modulus: u64,
}

impl View for Params {
    type V = ParamsV;

    open spec fn view(&self) -> ParamsV {
        ParamsV {
            scheme: self.scheme,
            degree: self.poly_modulus_degree,
            coeff: self.coeff_modulus@,
            plain: self.plain_modulus,
        }
    }
}

impl Params {
    /// Creates an empty parameter set for the given scheme.
    pub fn create(scheme: u8) -> (r: Result<Params, HeError>)
        ensures
            match r {
                Ok(p) => {
                    &&& scheme_ok(scheme)
                    &&& p@ == (ParamsV { scheme, degree: 0, coeff: Seq::empty(), plain: 0 })
                },
                Err(e) => !scheme_ok(scheme) && e == HeError::Parameter(
                    ParameterIssue::UnsupportedScheme,
                ),
            },
    {
        if scheme != SCHEME_BFV && scheme != SCHEME_CKKS {
            return Err(HeError::Parameter(ParameterIssue::UnsupportedScheme));
        }
        let p = Params { scheme, poly_modulus_degree: 0, coeff_modulus: Vec::new(), plain_modulus: 0 };
        proof {
            assert(p@.coeff =~= Seq::<u64>::empty());
        }
        Ok(p)
    }

    /// A deep copy of the parameter set.
    pub fn clone(&self) -> (r: Result<Params, HeError>)
        ensures
            match r {
                Ok(p) => p@ == self@,
                Err(_) => false,
            },
    {
        let coeff = clone_u64_vec(&self.coeff_modulus);
        Ok(
            Params {
                scheme: self.scheme,
                poly_modulus_degree: self.poly_modulus_degree,
                coeff_modulus: coeff,
                plain_modulus: self.plain_modulus,
            },
        )
    }

    /// Sets the polynomial modulus degree; only powers of two from 1024 to
    /// 32768 are accepted.
    pub fn set_poly_modulus_degree(&mut self, modulus_degree: usize) -> (r: Result<(), HeError>)
        ensures
            match r {
                Ok(()) => {
                    &&& degree_ok(modulus_degree)
                    &&& final(self)@ == (ParamsV { degree: modulus_degree, ..old(self)@ })
                },
                Err(e) => {
                    &&& !degree_ok(modulus_degree)
                    &&& e == HeError::Parameter(ParameterIssue::InvalidDegree)
                    &&& final(self)@ == old(self)@
                },
            },
    {
        if modulus_degree == 1024 || modulus_degree == 2048 || modulus_degree == 4096
            || modulus_degree == 8192 || modulus_degree == 16384 || modulus_degree == 32768 {
            self.poly_modulus_degree = modulus_degree;
            Ok(())
        } else {
            Err(HeError::Parameter(ParameterIssue::InvalidDegree))
        }
    }

    /// The polynomial modulus degree.
    pub fn get_poly_modulus_degree(&self) -> (r: Result<usize, HeError>)
        ensures
            r == Ok::<usize, HeError>(self.poly_modulus_degree),
    {
        Ok(self.poly_modulus_degree)
    }

    /// Sets the coefficient modulus chain from explicit moduli.
    pub fn set_coeff_modulus(&mut self, primes: &[SmallModulus]) -> (r: Result<(), HeError>)
        ensures
            match r {
                Ok(()) => {
                    &&& 1 <= primes@.len() <= COEFF_COUNT_MAX
                    &&& forall|i: int|
                        0 <= i < primes@.len() ==> coeff_value_ok(
                            #[trigger] primes@[i].spec_value(),
                        )
                    &&& final(self)@ == (ParamsV { coeff: moduli_values(primes@), ..old(self)@ })
                },
                Err(e) => {
                    &&& e == HeError::Parameter(ParameterIssue::InvalidCoeffModulus)
                    &&& !(1 <= primes@.len() <= COEFF_COUNT_MAX && forall|i: int|
                        0 <= i < primes@.len() ==> coeff_value_ok(
                            #[trigger] primes@[i].spec_value(),
                        ))
                    &&& final(self)@ == old(self)@
                },
            },
    {
        if primes.len() < 1 || primes.len() > COEFF_COUNT_MAX {
            return Err(HeError::Parameter(ParameterIssue::InvalidCoeffModulus));
        }
        let mut values: Vec<u64> = Vec::new();
        let mut i: usize = 0;
        while i < primes.len()
            invariant
                i <= primes@.len(),
                1 <= primes@.len() <= COEFF_COUNT_MAX,
                self@ == old(self)@,
                values@ == moduli_values(primes@).take(i as int),
                forall|j: int|
                    0 <= j < i ==> coeff_value_ok(#[trigger] primes@[j].spec_value()),
            decreases primes@.len() - i,
        {
            let v = primes[i].get();
            if v < 2 || v > MODULUS_VALUE_MAX {
                proof {
                    assert(!coeff_value_ok(primes@[i as int].spec_value()));
                }
                return Err(HeError::Parameter(ParameterIssue::InvalidCoeffModulus));
            }
            values.push(v);
            proof {
                assert(moduli_values(primes@).take(i + 1) =~= moduli_values(primes@).take(
                    i as int,
                ).push(primes@[i as int].spec_value()));
            }
            i = i + 1;
        }
        proof {
            assert(moduli_values(primes@).take(primes@.len() as int) =~= moduli_values(primes@));
        }
        self.coeff_modulus = values;
        Ok(())
    }

    /// The default coefficient chain for the integer scheme at 128-bit
    /// security, for the degree already set.
    pub fn bfv_default(&self, security_level: u8) -> (r: Result<Vec<SmallModulus>, HeError>)
        ensures
            match r {
                Ok(v) => {
                    &&& degree_ok(self.poly_modulus_degree)
                    &&& security_level == 128
                    &&& moduli_values(v@) == bits_moduli(bfv_default_bits(self.poly_modulus_degree))
                },
                Err(e) => {
                    ||| (!degree_ok(self.poly_modulus_degree) && e == HeError::Parameter(
                        ParameterIssue::InvalidDegree,
                    ))
                    ||| (degree_ok(self.poly_modulus_degree) && security_level != 128 && e
                        == HeError::Parameter(ParameterIssue::UnsupportedSecurityLevel))
                    ||| (degree_ok(self.poly_modulus_degree) && security_level == 128 && (
                    exists|j: int|
                        0 <= j < bfv_default_bits(self.poly_modulus_degree).len()
                            && bits_modulus(
                            #[trigger] bfv_default_bits(self.poly_modulus_degree)[j] as int,
                        ) == 0) && e == HeError::Parameter(ParameterIssue::InvalidCoeffModulus))
                },
            },
    {
        let d = self.poly_modulus_degree;
        if !(d == 1024 || d == 2048 || d == 4096 || d == 8192 || d == 16384 || d == 32768) {
            return Err(HeError::Parameter(ParameterIssue::InvalidDegree));
        }
        if security_level != 128 {
            return Err(HeError::Parameter(ParameterIssue::UnsupportedSecurityLevel));
        }
        let mut bits: Vec<u64> = Vec::new();
        if d == 1024 {
            bits.push(27);
        } else if d == 2048 {
            bits.push(54);
        } else if d == 4096 {
            bits.push(36);
            bits.push(36);
            bits.push(37);
        } else if d == 8192 {
            bits.push(43);
            bits.push(43);
            bits.push(44);
            bits.push(44);
            bits.push(44);
        } else if d == 16384 {
            bits.push(48);
            bits.push(48);
            bits.push(48);
            let mut k: usize = 0;
            while k < 6
                invariant
                    k <= 6,
                    bits@ == seq![48u64, 48u64, 48u64] + Seq::new(k as nat, |i: int| 49u64),
                decreases 6 - k,
            {
                bits.push(49);
                proof {
                    assert(Seq::new((k + 1) as nat, |i: int| 49u64) =~= Seq::new(
                        k as nat,
                        |i: int| 49u64,
                    ).push(49u64));
                }
                k = k + 1;
            }
        } else {
            let mut k: usize = 0;
            while k < 15
                invariant
                    k <= 15,
                    bits@ == Seq::new(k as nat, |i: int| 55u64),
                decreases 15 - k,
            {
                bits.push(55);
                proof {
                    assert(Seq::new((k + 1) as nat, |i: int| 55u64) =~= Seq::new(
                        k as nat,
                        |i: int| 55u64,
                    ).push(55u64));
                }
                k = k + 1;
            }
            bits.push(56);
        }
        proof {
            assert(bits@ =~= bfv_default_bits(d));
        }
        let mut out: Vec<SmallModulus> = Vec::new();
        let mut i: usize = 0;
        while i < bits.len()
            invariant
                i <= bits@.len(),
                bits@ == bfv_default_bits(d),
                d == self.poly_modulus_degree,
                degree_ok(d),
                security_level == 128,
                forall|j: int| 0 <= j < bits@.len() ==> 2 <= #[trigger] bits@[j] <= 60,
                moduli_values(out@) == bits_moduli(bits@).take(i as int),
            decreases bits@.len() - i,
        {
            let m = match modulus_for_bits(bits[i]) {
                Ok(m) => m,
                Err(_) => {
                    proof {
                        assert(bits_modulus(bits@[i as int] as int) == 0);
                    }
                    return Err(HeError::Parameter(ParameterIssue::InvalidCoeffModulus));
                },
            };
            let ghost prev = out@;
            out.push(m);
            proof {
                assert(moduli_values(prev).len() == prev.len());
                assert(prev.len() == i);
                assert(out@ == prev.push(m));
                assert forall|j: int| 0 <= j < i + 1 implies moduli_values(out@)[j]
                    == bits_moduli(bits@).take(i + 1)[j] by {
                    if j < i {
                        assert(moduli_values(prev)[j] == bits_moduli(bits@).take(i as int)[j]);
                        assert(out@[j] == prev[j]);
                    } else {
                        assert(out@[j] == m);
                    }
                }
                assert(moduli_values(out@) =~= bits_moduli(bits@).take(i + 1));
            }
            i = i + 1;
        }
        proof {
            assert(bits_moduli(bits@).take(bits@.len() as int) =~= bits_moduli(bits@));
        }
        Ok(out)
    }

    /// Builds and installs a coefficient chain for the fractional scheme from
    /// requested bit sizes.
    pub fn set_coeff_modulus_ckks(&mut self, bits_sizes: &[i32]) -> (r: Result<(), HeError>)
        ensures
            match r {
                Ok(()) => {
                    &&& old(self).poly_modulus_degree != 0
                    &&& 1 <= bits_sizes@.len() <= COEFF_COUNT_MAX
                    &&& forall|i: int| 0 <= i < bits_sizes@.len() ==> 2 <= #[trigger] bits_sizes@[i] <= 60
                    &&& final(self)@ == (ParamsV {
                        coeff: bits_moduli_i32(bits_sizes@),
                        ..old(self)@
                    })
                },
                Err(e) => {
                    &&& final(self)@ == old(self)@
                    &&& {
                        ||| (old(self).poly_modulus_degree == 0 && e == HeError::Parameter(
                            ParameterIssue::InvalidDegree,
                        ))
                        ||| (old(self).poly_modulus_degree != 0 && !(1 <= bits_sizes@.len()
                            <= COEFF_COUNT_MAX && forall|i: int|
                            0 <= i < bits_sizes@.len() ==> 2 <= #[trigger] bits_sizes@[i] <= 60)
                            && e == HeError::Parameter(ParameterIssue::InvalidCoeffModulus))
                        ||| (old(self).poly_modulus_degree != 0 && (exists|i: int|
                            0 <= i < bits_sizes@.len() && 2 <= bits_sizes@[i] <= 60
                                && bits_modulus(#[trigger] bits_sizes@[i] as int) == 0) && e
                            == HeError::Parameter(ParameterIssue::InvalidCoeffModulus))
                    }
                },
            },
    {
        if self.poly_modulus_degree == 0 {
            return Err(HeError::Parameter(ParameterIssue::InvalidDegree));
        }
        if bits_sizes.len() < 1 || bits_sizes.len() > COEFF_COUNT_MAX {
            return Err(HeError::Parameter(ParameterIssue::InvalidCoeffModulus));
        }
        let mut values: Vec<u64> = Vec::new();
        let mut i: usize = 0;
        while i < bits_sizes.len()
            invariant
                i <= bits_sizes@.len(),
                1 <= bits_sizes@.len() <= COEFF_COUNT_MAX,
                self@ == old(self)@,
                old(self).poly_modulus_degree != 0,
                values@ == bits_moduli_i32(bits_sizes@).take(i as int),
                forall|j: int| 0 <= j < i ==> 2 <= #[trigger] bits_sizes@[j] <= 60,
            decreases bits_sizes@.len() - i,
        {
            let b = bits_sizes[i];
            if b < 2 || b > 60 {
                proof {
                    assert(!(2 <= bits_sizes@[i as int] <= 60));
                }
                return Err(HeError::Parameter(ParameterIssue::InvalidCoeffModulus));
            }
            let m = match modulus_for_bits(b as u64) {
                Ok(m) => m,
                Err(_) => {
                    proof {
                        assert(bits_modulus(bits_sizes@[i as int] as int) == 0);
                    }
                    return Err(HeError::Parameter(ParameterIssue::InvalidCoeffModulus));
                },
            };
            values.push(m.get());
            proof {
                assert(values@ =~= bits_moduli_i32(bits_sizes@).take(i + 1));
            }
            i = i + 1;
        }
        proof {
            assert(bits_moduli_i32(bits_sizes@).take(bits_sizes@.len() as int) =~= bits_moduli_i32(
                bits_sizes@,
            ));
        }
        self.coeff_modulus = values;
        Ok(())
    }

    /// Sets the plaintext modulus; refused for the fractional scheme.
    pub fn set_plain_modulus(&mut self, plain_modulus: u64) -> (r: Result<(), HeError>)
        ensures
            match r {
                Ok(()) => {
                    &&& old(self).scheme != SCHEME_CKKS || plain_modulus == 0
                    &&& plain_modulus == 0 || (2 <= plain_modulus <= MODULUS_VALUE_MAX)
                    &&& final(self)@ == (ParamsV { plain: plain_modulus, ..old(self)@ })
                },
                Err(e) => {
                    &&& final(self)@ == old(self)@
                    &&& e == HeError::Parameter(ParameterIssue::InvalidPlainModulus)
                    &&& ((old(self).scheme == SCHEME_CKKS && plain_modulus != 0) || !(
                    plain_modulus == 0 || (2 <= plain_modulus <= MODULUS_VALUE_MAX)))
                },
            },
    {
        if self.scheme == SCHEME_CKKS && plain_modulus != 0 {
            return Err(HeError::Parameter(ParameterIssue::InvalidPlainModulus));
        }
        if plain_modulus == 1 || plain_modulus > MODULUS_VALUE_MAX {
            return Err(HeError::Parameter(ParameterIssue::InvalidPlainModulus));
        }
        self.plain_modulus = plain_modulus;
        Ok(())
    }

    /// The plaintext modulus.
    pub fn get_plain_modulus(&self) -> (r: Result<u64, HeError>)
        ensures
            r == Ok::<u64, HeError>(self.plain_modulus),
    {
        Ok(self.plain_modulus)
    }

    /// Writes the parameter set as a byte stream.
    pub fn save(&self) -> (r: Result<Vec<u8>, HeError>)
        ensures
            match r {
                Ok(bytes) => params_savable(self@) && bytes@ == encode_words(
                    params_words(self@),
                ),
                Err(e) => !params_savable(self@) && e == HeError::Serialization,
            },
    {
        if !params_savable_exec(self) {
            return Err(HeError::Serialization);
        }
        let mut ws: Vec<u64> = Vec::new();
        ws.push(WKIND_PARAMS);
        ws.push(self.scheme as u64);
        ws.push(self.poly_modulus_degree as u64);
        ws.push(self.plain_modulus);
        let mut i: usize = 0;
        while i < self.coeff_modulus.len()
            invariant
                i <= self.coeff_modulus@.len(),
                ws@ == seq![
                    WKIND_PARAMS,
                    self.scheme as u64,
                    self.poly_modulus_degree as u64,
                    self.plain_modulus,
                ] + self.coeff_modulus@.take(i as int),
            decreases self.coeff_modulus@.len() - i,
        {
            ws.push(self.coeff_modulus[i]);
            proof {
                assert(self.coeff_modulus@.take(i + 1) =~= self.coeff_modulus@.take(
                    i as int,
                ).push(self.coeff_modulus@[i as int]));
            }
            i = i + 1;
        }
        proof {
            assert(self.coeff_modulus@.take(self.coeff_modulus@.len() as int)
                =~= self.coeff_modulus@);
            assert(ws@ =~= params_words(self@));
        }
        Ok(encode_words_vec(&ws))
    }

    /// Reads a parameter set back from a byte stream.  The scheme argument
    /// selects the initial scheme, as at creation; the stream then determines
    /// every field.
    pub fn load(scheme: u8, bytes: &[u8]) -> (r: Result<Params, HeError>)
        ensures
            match r {
                Ok(p) => {
                    &&& scheme_ok(scheme)
                    &&& parse_params(bytes@) == Some(p@)
                },
                Err(e) => {
                    ||| (!scheme_ok(scheme) && e == HeError::Parameter(
                        ParameterIssue::UnsupportedScheme,
                    ))
                    ||| (scheme_ok(scheme) && parse_params(bytes@) is None && e
                        == HeError::Serialization)
                },
            },
    {
        if scheme != SCHEME_BFV && scheme != SCHEME_CKKS {
            return Err(HeError::Parameter(ParameterIssue::UnsupportedScheme));
        }
        let ws = match decode_words_vec(bytes) {
            None => {
                return Err(HeError::Serialization);
            },
            Some(ws) => ws,
        };
        if ws.len() < 4 {
            return Err(HeError::Serialization);
        }
        if ws[0] != WKIND_PARAMS || ws[1] > 255 || ws[2] > 32768 {
            return Err(HeError::Serialization);
        }
        let mut coeff: Vec<u64> = Vec::new();
        let mut i: usize = 4;
        while i < ws.len()
            invariant
                4 <= i <= ws@.len(),
                coeff@ == ws@.subrange(4, i as int),
            decreases ws@.len() - i,
        {
            coeff.push(ws[i]);
            proof {
                assert(ws@.subrange(4, i + 1) =~= ws@.subrange(4, i as int).push(ws@[i as int]));
            }
            i = i + 1;
        }
        proof {
            assert(coeff@ =~= ws@.skip(4));
        }
        let p = Params {
            scheme: ws[1] as u8,
            poly_modulus_degree: ws[2] as usize,
            coeff_modulus: coeff,
            plain_modulus: ws[3],
        };
        if !params_savable_exec(&p) {
            return Err(HeError::Serialization);
        }
        Ok(p)
    }
}

/// The modulus standing for a bit size: the largest `b`-bit prime, found by
/// verified search; fails exactly when no `b`-bit prime exists.
pub fn modulus_for_bits(b: u64) -> (r: Result<SmallModulus, HeError>)
    requires
        2 <= b <= 60,
    ensures
        match r {
            Ok(m) => {
                &&& bits_modulus(b as int) != 0
                &&& m.spec_value() == bits_modulus(b as int)
                &&& coeff_value_ok(m.spec_value())
            },
            Err(e) => bits_modulus(b as int) == 0 && e == HeError::Parameter(
                ParameterIssue::InvalidCoeffModulus,
            ),
        },
{
    proof {
        vstd::arithmetic::power2::lemma_pow2_unfold(b as nat);
        vstd::arithmetic::power2::lemma_pow2_strictly_increases(1, b as nat);
        vstd::arithmetic::power2::lemma_pow2_strictly_increases((b - 1) as nat, 61);
        vstd::arithmetic::power2::lemma2_to64();
        vstd::arithmetic::power2::lemma2_to64_rest();
    }
    let lo = pow2_u64(b - 1);
    let hi = pow2_u64(b) - 1;
    match crate::small_modulus::largest_prime_in(lo, hi) {
        Ok(p) => {
            proof {
                crate::small_modulus::lemma_prime_below_bounds(hi as int, lo as int);
            }
            match SmallModulus::create(p) {
                Ok(m) => Ok(m),
                Err(_) => {
                    proof {
                        assert(false);
                    }
                    Err(HeError::Parameter(ParameterIssue::InvalidCoeffModulus))
                },
            }
        },
        Err(()) => Err(HeError::Parameter(ParameterIssue::InvalidCoeffModulus)),
    }
}

/// Runtime check of [`params_savable`].
fn params_savable_exec(p: &Params) -> (r: bool)
    ensures
        r == params_savable(p@),
{
    let scheme_fine = p.scheme == SCHEME_BFV || p.scheme == SCHEME_CKKS;
    let d = p.poly_modulus_degree;
    let degree_fine = d == 0 || d == 1024 || d == 2048 || d == 4096 || d == 8192 || d == 16384
        || d == 32768;
    let plain_fine = p.plain_modulus == 0 || (2 <= p.plain_modulus && p.plain_modulus
        <= MODULUS_VALUE_MAX);
    if !(scheme_fine && degree_fine && plain_fine) {
        return false;
    }
    if p.coeff_modulus.len() > COEFF_COUNT_MAX {
        return false;
    }
    let mut i: usize = 0;
    while i < p.coeff_modulus.len()
        invariant
            i <= p.coeff_modulus@.len(),
            forall|j: int| 0 <= j < i ==> coeff_value_ok(#[trigger] p.coeff_modulus@[j]),
        decreases p.coeff_modulus@.len() - i,
    {
        let v = p.coeff_modulus[i];
        if v < 2 || v > MODULUS_VALUE_MAX {
            return false;
        }
        i = i + 1;
    }
    true
}

/// An element-for-element copy of a word vector.
pub fn clone_u64_vec(v: &Vec<u64>) -> (r: Vec<u64>)
    ensures
        r@ == v@,
{
    let mut out: Vec<u64> = Vec::new();
    let mut i: usize = 0;
    while i < v.len()
        invariant
            i <= v@.len(),
            out@ == v@.take(i as int),
        decreases v@.len() - i,
    {
        out.push(v[i]);
        proof {
            assert(v@.take(i + 1) =~= v@.take(i as int).push(v@[i as int]));
        }
        i = i + 1;
    }
    proof {
        assert(v@.take(v@.len() as int) =~= v@);
    }
    out
}

} // verus!
