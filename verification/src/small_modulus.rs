//! A single modulus value used inside a coefficient-modulus chain or as the
//! plaintext modulus.
//!
//! A modulus is immutable after creation.  Besides plain construction, the
//! type offers [`SmallModulus::for_batching`], which finds the smallest prime
//! of a requested bit length that is compatible with batching for a given
//! polynomial degree (congruent to one modulo twice the degree).

use vstd::prelude::*;
use vstd::arithmetic::div_mod::lemma_add_mod_noop;
use vstd::arithmetic::div_mod::lemma_mod_bound;
use vstd::arithmetic::div_mod::lemma_fundamental_div_mod;
use vstd::arithmetic::div_mod::lemma_mod_multiples_basic;
use vstd::arithmetic::div_mod::lemma_mod_multiples_vanish;
use vstd::arithmetic::div_mod::lemma_small_mod;
use vstd::arithmetic::power2::lemma2_to64;
use vstd::arithmetic::power2::lemma2_to64_rest;
use vstd::arithmetic::power2::lemma_pow2_pos;
use vstd::arithmetic::power2::lemma_pow2_strictly_increases;
use vstd::arithmetic::power2::lemma_pow2_unfold;
use vstd::arithmetic::power2::pow2;

use crate::error::HeError;
use crate::error::ParameterIssue;

verus! {

/// The largest value a modulus may hold: a 61-bit number.
pub const MODULUS_VALUE_MAX: u64 = 0x1FFF_FFFF_FFFF_FFFF;

/// The largest polynomial degree accepted when searching batching primes.
pub const DEGREE_MAX: usize = 65536;

/// A modulus value is either zero (unset) or a number of 2 to 61 bits.
pub open spec fn modulus_value_ok(v: u64) -> bool {
    v == 0 || (2 <= v && v <= MODULUS_VALUE_MAX)
}

/// Primality over the integers.
pub open spec fn is_prime(n: int) -> bool {
    2 <= n && forall|d: int| 2 <= d < n ==> #[trigger] (n % d) != 0
}

/// The number of binary digits of `v` (zero for zero).
pub open spec fn bitlen(v: nat) -> nat
    decreases v,
{
    if v == 0 {
        0
    } else {
        (1 + bitlen(v / 2)) as nat
    }
}

/// What [`SmallModulus::for_batching`] looks for: a prime of exactly
/// `bit_size` binary digits that is congruent to one modulo `2 * degree`.
pub open spec fn batching_prime_ok(p: u64, degree: usize, bit_size: u8) -> bool {
    &&& is_prime(p as int)
    &&& bitlen(p as nat) == bit_size
    &&& (p as int) % (2 * degree as int) == 1
}

/// A positive value has at least one binary digit.
pub proof fn lemma_bitlen_pos(v: nat)
    requires
        v > 0,
    ensures
        bitlen(v) >= 1,
{
    assert(bitlen(v) == 1 + bitlen(v / 2));
}

/// A value has exactly `b >= 1` binary digits when it lies in
/// `[2^(b-1), 2^b)`.
pub proof fn lemma_bitlen_range(v: nat, b: nat)
    requires
        b >= 1,
    ensures
        bitlen(v) == b <==> (pow2((b - 1) as nat) <= v < pow2(b)),
    decreases b,
{
    if v == 0 {
        lemma_pow2_pos((b - 1) as nat);
        assert(bitlen(0) == 0);
    } else if b == 1 {
        assert(pow2(0) == 1 && pow2(1) == 2) by {
            lemma2_to64();
        }
        assert(bitlen(v) == 1 + bitlen(v / 2));
        if v == 1 {
            assert(bitlen((1 as nat) / 2) == 0);
        } else {
            lemma_bitlen_pos(v / 2);
        }
    } else {
        lemma_bitlen_range(v / 2, (b - 1) as nat);
        lemma_pow2_unfold(b);
        lemma_pow2_unfold((b - 1) as nat);
        lemma_pow2_pos((b - 2) as nat);
        assert(bitlen(v) == 1 + bitlen(v / 2));
        assert(v / 2 >= pow2((b - 2) as nat) <==> v >= 2 * pow2((b - 2) as nat));
        assert(v / 2 < pow2((b - 1) as nat) <==> v < 2 * pow2((b - 1) as nat));
    }
}

/// A value below `2^b` has at most `b` binary digits.
pub proof fn lemma_bitlen_upper(v: nat, b: nat)
    requires
        v < pow2(b),
    ensures
        bitlen(v) <= b,
    decreases b,
{
    if v > 0 {
        if b == 0 {
            lemma2_to64();
        } else {
            lemma_pow2_unfold(b);
            lemma_bitlen_upper(v / 2, (b - 1) as nat);
        }
    }
}

/// A composite number has a divisor whose square does not exceed it.
proof fn lemma_composite_has_small_divisor(n: int, d: int)
    requires
        2 <= d < n,
        n % d == 0,
    ensures
        exists|a: int| 2 <= a && a * a <= n && #[trigger] (n % a) == 0,
{
    let e = n / d;
    lemma_fundamental_div_mod(n, d);
    assert(n == d * e);
    assert(e >= 2) by (nonlinear_arith)
        requires
            n == d * e,
            2 <= d < n,
    ;
    lemma_mod_multiples_basic(d, e);
    assert((d * e) % e == 0);
    if d <= e {
        assert(d * d <= n) by (nonlinear_arith)
            requires
                n == d * e,
            d <= e,
            d >= 2,
        ;
        assert(2 <= d && d * d <= n && n % d == 0);
    } else {
        assert(e * e <= n) by (nonlinear_arith)
            requires
                n == d * e,
            e <= d,
            e >= 2,
        ;
        assert(2 <= e && e * e <= n && n % e == 0);
    }
}

/// Computes `2^e` for exponents small enough to fit a `u64`.
pub fn pow2_u64(e: u64) -> (r: u64)
    requires
        e <= 63,
    ensures
        r as nat == pow2(e as nat),
{
    let mut i: u64 = 0;
    let mut r: u64 = 1;
    proof {
        lemma2_to64();
    }
    while i < e
        invariant
            i <= e <= 63,
            r as nat == pow2(i as nat),
        decreases e - i,
    {
        proof {
            lemma_pow2_strictly_increases(i as nat, 63);
            lemma2_to64_rest();
            lemma_pow2_unfold((i + 1) as nat);
        }
        r = r * 2;
        i = i + 1;
    }
    r
}

/// Computes the number of binary digits of `v`.
pub fn bit_length(v: u64) -> (r: u64)
    ensures
        r as nat == bitlen(v as nat),
        r <= 64,
{
    let mut x = v;
    let mut c: u64 = 0;
    proof {
        lemma2_to64();
        lemma_bitlen_upper(v as nat, 64);
    }
    while x > 0
        invariant
            c + bitlen(x as nat) == bitlen(v as nat),
            bitlen(v as nat) <= 64,
        decreases x,
    {
        x = x / 2;
        c = c + 1;
    }
    c
}

/// Whether the square of `d` is at most `n`.
fn square_at_most(d: u64, n: u64) -> (r: bool)
    ensures
        r == ((d as int) * (d as int) <= n as int),
{
    proof {
        assert((d as u128) * (d as u128) <= 0xFFFF_FFFF_FFFF_FFFFu128
            * 0xFFFF_FFFF_FFFF_FFFFu128) by (nonlinear_arith)
            requires
                d <= 0xFFFF_FFFF_FFFF_FFFFu64,
        ;
    }
    (d as u128) * (d as u128) <= n as u128
}

/// If a divisor of `n` is itself a multiple of `m`, then `m` divides `n`.
proof fn lemma_divisor_transfer(n: int, k: int, m: int)
    requires
        n >= 1,
        k >= 1,
        m >= 1,
        k % m == 0,
        n % k == 0,
    ensures
        n % m == 0,
{
    lemma_fundamental_div_mod(n, k);
    lemma_fundamental_div_mod(k, m);
    let q = n / k;
    let j = k / m;
    assert(n == m * (j * q)) by (nonlinear_arith)
        requires
            n == k * q,
            k == m * j,
    ;
    lemma_mod_multiples_basic(j * q, m);
}

/// A value congruent to `r` modulo six, as a witness for the wheel steps.
proof fn lemma_mod6_split(d: int) -> (t: int)
    requires
        d >= 0,
    ensures
        d == 6 * t + d % 6,
        t >= 0,
        0 <= d % 6 < 6,
{
    lemma_fundamental_div_mod(d, 6);
    lemma_mod_bound(d, 6);
    vstd::arithmetic::div_mod::lemma_div_pos_is_pos(d, 6);
    d / 6
}

/// Decides primality by trial division up to the square root, skipping
/// multiples of two and three.
pub fn is_prime_u64(n: u64) -> (r: bool)
    requires
        n >= 2,
    ensures
        r == is_prime(n as int),
{
    if n == 2 || n == 3 {
        return true;
    }
    if n % 2 == 0 {
        proof {
            assert(2 < n && (n as int) % 2 == 0);
        }
        return false;
    }
    if n % 3 == 0 {
        proof {
            assert(3 < n && (n as int) % 3 == 0);
        }
        return false;
    }
    let mut d: u64 = 5;
    let mut step: u64 = 2;
    proof {
        assert forall|k: int| 2 <= k < 5 implies #[trigger] ((n as int) % k) != 0 by {
            if k == 4 && (n as int) % k == 0 {
                lemma_divisor_transfer(n as int, 4, 2);
            }
        }
    }
    while square_at_most(d, n)
        invariant
            5 <= d,
            n >= 5,
            (n as int) % 2 != 0,
            (n as int) % 3 != 0,
            d % 6 == 5 || d % 6 == 1,
            step == if d % 6 == 5 {
                2u64
            } else {
                4u64
            },
            forall|k: int| 2 <= k < d ==> #[trigger] ((n as int) % k) != 0,
        decreases n - d,
    {
        proof {
            assert(d < n && d + 4 < n) by (nonlinear_arith)
                requires
                    (d as int) * (d as int) <= n as int,
                    d >= 5,
            ;
        }
        if n % d == 0 {
            return false;
        }
        proof {
            let t = lemma_mod6_split(d as int);
            if d % 6 == 5 {
                // the one skipped value is even
                assert((d + 1) as int == 2 * (3 * t + 3)) by (nonlinear_arith)
                    requires
                        d as int == 6 * t + 5,
                ;
                lemma_mod_multiples_basic(3 * t + 3, 2);
                assert forall|k: int| d < k < d + 2 implies #[trigger] ((n as int) % k)
                    != 0 by {
                    if (n as int) % k == 0 {
                        lemma_divisor_transfer(n as int, k, 2);
                    }
                }
            } else {
                // the three skipped values are even, a multiple of three, even
                assert((d + 1) as int == 2 * (3 * t + 1) && (d + 2) as int == 3 * (2 * t + 1)
                    && (d + 3) as int == 2 * (3 * t + 2)) by (nonlinear_arith)
                    requires
                        d as int == 6 * t + 1,
                ;
                lemma_mod_multiples_basic(3 * t + 1, 2);
                lemma_mod_multiples_basic(2 * t + 1, 3);
                lemma_mod_multiples_basic(3 * t + 2, 2);
                assert forall|k: int| d < k < d + 4 implies #[trigger] ((n as int) % k)
                    != 0 by {
                    if (n as int) % k == 0 {
                        if k == d + 2 {
                            lemma_divisor_transfer(n as int, k, 3);
                        } else {
                            lemma_divisor_transfer(n as int, k, 2);
                        }
                    }
                }
            }
        }
        d = d + step;
        step = 6 - step;
    }
    proof {
        assert((n as int) < (d as int) * (d as int));
        if !is_prime(n as int) {
            let k = choose|k: int| 2 <= k < n && #[trigger] ((n as int) % k) == 0;
            lemma_composite_has_small_divisor(n as int, k);
            let a = choose|a: int|
                2 <= a && a * a <= n && #[trigger] ((n as int) % a) == 0;
            assert(a < d) by (nonlinear_arith)
                requires
                    a * a <= n as int,
                    (n as int) < (d as int) * (d as int),
                    a >= 2,
                    d >= 2,
            ;
            assert((n as int) % a != 0);
        }
    }
    true
}

/// The largest prime in `[lo, x]`, or zero when the range holds none.
pub open spec fn prime_below(x: int, lo: int) -> int
    decreases x - lo + 1,
{
    if x < lo || lo < 2 {
        0
    } else if is_prime(x) {
        x
    } else {
        prime_below(x - 1, lo)
    }
}

/// A prime at `p` with nothing prime above it pins the search result.
proof fn lemma_prime_below_hit(x: int, lo: int, p: int)
    requires
        2 <= lo <= p <= x,
        is_prime(p),
        forall|q: int| p < q <= x ==> !is_prime(q),
    ensures
        prime_below(x, lo) == p,
    decreases x - p,
{
    if x > p {
        lemma_prime_below_hit(x - 1, lo, p);
    }
}

/// A range without primes makes the search come up empty.
proof fn lemma_prime_below_miss(x: int, lo: int)
    requires
        2 <= lo,
        forall|q: int| lo <= q <= x ==> !is_prime(q),
    ensures
        prime_below(x, lo) == 0,
    decreases x - lo + 1,
{
    if x >= lo {
        lemma_prime_below_miss(x - 1, lo);
    }
}

/// A nonzero search result is a prime inside the range.
pub proof fn lemma_prime_below_bounds(x: int, lo: int)
    requires
        2 <= lo,
    ensures
        prime_below(x, lo) == 0 || (lo <= prime_below(x, lo) <= x && is_prime(
            prime_below(x, lo),
        )),
    decreases x - lo + 1,
{
    if x >= lo && !is_prime(x) {
        lemma_prime_below_bounds(x - 1, lo);
    }
}

/// Finds the largest prime in `[lo, hi]`; `Ok` exactly when the range holds
/// one.
pub fn largest_prime_in(lo: u64, hi: u64) -> (r: Result<u64, ()>)
    requires
        2 <= lo,
        lo <= hi,
        hi < 0xFFFF_FFFF_FFFF_FFFFu64,
    ensures
        match r {
            Ok(p) => p as int == prime_below(hi as int, lo as int) && p != 0,
            Err(()) => prime_below(hi as int, lo as int) == 0,
        },
{
    let mut p: u64 = hi;
    while p >= lo
        invariant
            2 <= lo,
            lo - 1 <= p <= hi,
            forall|q: int| (p as int) < q <= hi as int ==> !is_prime(q),
        decreases p,
    {
        if is_prime_u64(p) {
            proof {
                lemma_prime_below_hit(hi as int, lo as int, p as int);
            }
            return Ok(p);
        }
        p = p - 1;
    }
    proof {
        lemma_prime_below_miss(hi as int, lo as int);
    }
    Err(())
}

/// No number strictly between two consecutive values congruent to one modulo
/// `m` is itself congruent to one.
proof fn lemma_no_one_mod_in_gap(p: int, m: int, q: int)
    requires
        m >= 2,
        p >= 0,
        p % m == 1,
        p < q < p + m,
    ensures
        q % m != 1,
{
    let r = q - p;
    lemma_add_mod_noop(p, r, m);
    lemma_small_mod(r as nat, m as nat);
    if 1 + r < m {
        lemma_small_mod((1 + r) as nat, m as nat);
    } else {
        assert(1 + r == m);
        lemma_mod_multiples_basic(1, m);
    }
}

/// Wraps a single modulus value.
#[derive(Clone, Copy, Debug, PartialEq, Eq, Structural)]
pub struct SmallModulus {
    value: u64,
}

/// Why a plain value could not be turned into a modulus.
#[derive(Clone, Copy, Debug, PartialEq, Eq, Structural)]
pub enum ModulusError {
    /// The value is the unusable unit value.
    ConversionError,
    /// The value lies outside the representable modulus range.
    CreationError,
}

impl SmallModulus {
    /// The wrapped value.
    pub closed spec fn spec_value(&self) -> u64 {
        self.value
    }

    /// Creates a modulus holding `value`; rejects values no modulus may hold.
    pub fn create(value: u64) -> (r: Result<SmallModulus, HeError>)
        ensures
            match r {
                Ok(m) => modulus_value_ok(value) && m.spec_value() == value,
                Err(e) => !modulus_value_ok(value) && e == HeError::Parameter(
                    ParameterIssue::InvalidCoeffModulus,
                ),
            },
    {
        if value == 1 || value > MODULUS_VALUE_MAX {
            Err(HeError::Parameter(ParameterIssue::InvalidCoeffModulus))
        } else {
            Ok(SmallModulus { value })
        }
    }

    /// Creates a modulus from a plain value, reporting which constraint a
    /// rejected value broke.
    pub fn try_from_value(value: u64) -> (r: Result<SmallModulus, ModulusError>)
        ensures
            match r {
                Ok(m) => modulus_value_ok(value) && m.spec_value() == value,
                Err(ModulusError::ConversionError) => value == 1,
                Err(ModulusError::CreationError) => value != 1 && !modulus_value_ok(value),
            },
    {
        if value == 1 {
            Err(ModulusError::ConversionError)
        } else if value > MODULUS_VALUE_MAX {
            Err(ModulusError::CreationError)
        } else {
            Ok(SmallModulus { value })
        }
    }

    /// Finds the smallest prime with exactly `bit_size` binary digits that is
    /// congruent to one modulo `2 * poly_modulus_degree`, the congruence that
    /// batching requires of a plaintext modulus.
    pub fn for_batching(poly_modulus_degree: usize, bit_size: u8) -> (r: Result<
        SmallModulus,
        HeError,
    >)
        ensures
            match r {
                Ok(m) => {
                    &&& 1 <= poly_modulus_degree <= DEGREE_MAX
                    &&& 2 <= bit_size <= 61
                    &&& batching_prime_ok(m.spec_value(), poly_modulus_degree, bit_size)
                    &&& forall|q: u64|
                        q < m.spec_value() ==> !batching_prime_ok(
                            q,
                            poly_modulus_degree,
                            bit_size,
                        )
                },
                Err(e) => {
                    ||| (!(1 <= poly_modulus_degree <= DEGREE_MAX) && e == HeError::Parameter(
                        ParameterIssue::InvalidDegree,
                    ))
                    ||| (1 <= poly_modulus_degree <= DEGREE_MAX && !(2 <= bit_size <= 61)
                        && e == HeError::Parameter(ParameterIssue::InvalidCoeffModulus))
                    ||| (1 <= poly_modulus_degree <= DEGREE_MAX && 2 <= bit_size <= 61 && e
                        == HeError::Parameter(ParameterIssue::InvalidCoeffModulus) && forall|
                        q: u64,
                    | !batching_prime_ok(q, poly_modulus_degree, bit_size))
                },
            },
    {
        if poly_modulus_degree < 1 || poly_modulus_degree > DEGREE_MAX {
            return Err(HeError::Parameter(ParameterIssue::InvalidDegree));
        }
        if bit_size < 2 || bit_size > 61 {
            return Err(HeError::Parameter(ParameterIssue::InvalidCoeffModulus));
        }
        let twon: u64 = 2 * (poly_modulus_degree as u64);
        let lo: u64 = pow2_u64((bit_size - 1) as u64);
        proof {
            lemma_pow2_unfold(bit_size as nat);
            lemma_pow2_strictly_increases((bit_size - 1) as nat, 61);
            lemma2_to64_rest();
            lemma_pow2_pos((bit_size - 1) as nat);
        }
        let hi: u64 = lo * 2;
        // Position `p0` on the first value congruent to one modulo `twon` at
        // or just below `lo`, then advance to the first at or above `lo`.
        let k: u64 = lo / twon;
        proof {
            lemma_fundamental_div_mod(lo as int, twon as int);
            lemma_mod_bound(lo as int, twon as int);
            assert((k as int) * (twon as int) == (twon as int) * (k as int)) by (nonlinear_arith);
            lemma_mod_multiples_vanish(k as int, 1, twon as int);
            lemma_small_mod(1, twon as nat);
            lemma_mod_multiples_basic(k as int, twon as int);
        }
        proof {
            if bit_size == 2 {
                lemma2_to64();
            } else {
                lemma2_to64();
                lemma_pow2_strictly_increases(1, (bit_size - 1) as nat);
            }
        }
        let p0: u64 = k * twon + 1;
        let mut p: u64;
        if p0 < lo {
            p = p0 + twon;
            proof {
                lemma_mod_multiples_vanish((k + 1) as int, 1, twon as int);
                assert(((k + 1) as int) * (twon as int) == (twon as int) * ((k + 1) as int))
                    by (nonlinear_arith);
                assert((k + 1) * twon == k * twon + twon) by (nonlinear_arith);
            }
        } else {
            p = p0;
        }
        proof {
            assert forall|q: u64| lo <= q < p implies !batching_prime_ok(
                q,
                poly_modulus_degree,
                bit_size,
            ) by {
                if (q as int) % (twon as int) == 1 {
                    if q > p0 {
                        lemma_no_one_mod_in_gap(p0 as int, twon as int, q as int);
                    } else if q < p0 {
                        assert(q == k * twon);
                        lemma_mod_multiples_basic(k as int, twon as int);
                        assert((k as int) * (twon as int) == (twon as int) * (k as int))
                            by (nonlinear_arith);
                    }
                }
            }
        }
        while p < hi
            invariant
                2 <= twon <= 0x40000,
                2 <= p,
                (p as int) % (twon as int) == 1,
                lo as nat == pow2((bit_size - 1) as nat),
                hi as nat == pow2(bit_size as nat),
                hi <= 0x4000_0000_0000_0000,
                2 <= bit_size <= 61,
                1 <= poly_modulus_degree <= DEGREE_MAX,
                twon == 2 * poly_modulus_degree,
                forall|q: u64|
                    lo <= q < p ==> !batching_prime_ok(q, poly_modulus_degree, bit_size),
            decreases hi + twon - p,
        {
            proof {
                lemma_bitlen_range(p as nat, bit_size as nat);
                lemma_pow2_pos((bit_size - 1) as nat);
            }
            let bl = bit_length(p);
            if bl == bit_size as u64 && is_prime_u64(p) {
                proof {
                    assert forall|q: u64| q < p implies !batching_prime_ok(
                        q,
                        poly_modulus_degree,
                        bit_size,
                    ) by {
                        if q < lo {
                            lemma_bitlen_range(q as nat, bit_size as nat);
                        }
                    }
                }
                return Ok(SmallModulus { value: p });
            }
            proof {
                assert forall|q: int| p < q < p + twon implies #[trigger] (q % (twon as int))
                    != 1 by {
                    lemma_no_one_mod_in_gap(p as int, twon as int, q);
                }
                lemma_add_mod_noop(p as int, twon as int, twon as int);
                lemma_mod_multiples_basic(1, twon as int);
                lemma_small_mod(1, twon as nat);
            }
            p = p + twon;
        }
        proof {
            assert forall|q: u64| !batching_prime_ok(q, poly_modulus_degree, bit_size) by {
                if q < lo || q >= hi {
                    lemma_bitlen_range(q as nat, bit_size as nat);
                }
            }
        }
        Err(HeError::Parameter(ParameterIssue::InvalidCoeffModulus))
    }

    /// The wrapped value.
    pub fn value(&self) -> (r: Result<u64, HeError>)
        ensures
            r == Ok::<u64, HeError>(self.spec_value()),
    {
        Ok(self.value)
    }

    /// The wrapped value, without the fallible shell.
    pub fn get(&self) -> (r: u64)
        ensures
            r == self.spec_value(),
    {
        self.value
    }
}

} // verus!
