//! Complex numbers held as the IEEE-754 binary64 bit patterns of their parts.
use vstd::prelude::*;
use vstd::arithmetic::power2::{
    pow2, lemma2_to64, lemma2_to64_rest, lemma_pow2_adds, lemma_pow2_pos, lemma_pow2_strictly_increases,
    lemma_pow2_unfold,
};
use vstd::arithmetic::div_mod::lemma_fundamental_div_mod;

verus! {

/// Mask that clears the sign bit of a binary64 bit pattern.
pub const MAGNITUDE_MASK: u64 = 0x7fff_ffff_ffff_ffff;

/// Bit pattern of positive infinity, the largest magnitude that is not a NaN.
pub const INFINITY_BITS: u64 = 0x7ff0_0000_0000_0000;

/// A complex number whose real and imaginary parts are binary64 values,
/// each stored as its bit pattern.
#[derive(Clone, Copy, Debug, PartialEq, Eq, Structural, Hash)]
pub struct Complex {
    pub re: u64,
    pub im: u64,
}

/// The part whose bit pattern is `bits` has an absolute value above zero:
/// it is neither a signed zero nor a NaN.
pub open spec fn is_nonzero_bits(bits: u64) -> bool {
    let m = bits & MAGNITUDE_MASK;
    0 < m && m <= INFINITY_BITS
}

/// A part as it takes part in comparison: a part that is zero (or NaN) is
/// suppressed to the all-zero pattern.
pub open spec fn suppressed(bits: u64) -> u64 {
    if is_nonzero_bits(bits) {
        bits
    } else {
        0
    }
}

/// Whether the part with bit pattern `bits` has an absolute value above zero.
pub fn is_nonzero(bits: u64) -> (r: bool)
    ensures
        r == is_nonzero_bits(bits),
{
    let m = bits & MAGNITUDE_MASK;
    0 < m && m <= INFINITY_BITS
}

/// The part with bit pattern `bits`, with a zero (or NaN) suppressed.
pub fn suppress_zero(bits: u64) -> (r: u64)
    ensures
        r == suppressed(bits),
{
    if is_nonzero(bits) {
        bits
    } else {
        0
    }
}

impl Complex {
    /// The complex number with the given real part (as bits) and a zero imaginary part.
    pub fn from_real(re: u64) -> (r: Complex)
        ensures
            r == (Complex { re: re, im: 0 }),
    {
        Complex { re, im: 0 }
    }
}

/// The weight of the lowest exponent bit: the fraction field has 52 bits.
pub const FRACTION_UNIT: u64 = 0x10_0000_0000_0000;

/// The position of the highest set bit of a positive `n`.
pub open spec fn top_bit(n: nat) -> nat
    decreases n,
{
    if n < 2 {
        0
    } else {
        1 + top_bit(n / 2)
    }
}

/// `n / 2^s` rounded to the nearest integer, a tie to the even one.
pub open spec fn round_shift(n: nat, s: nat) -> nat {
    let q = n / pow2(s);
    let r = n % pow2(s);
    if s == 0 {
        q
    } else if r > pow2((s - 1) as nat) || (r == pow2((s - 1) as nat) && q % 2 == 1) {
        q + 1
    } else {
        q
    }
}

/// The bit pattern of the binary64 value nearest to `n` (a tie to the even
/// significand). With `e` the highest set bit, the value is a 53-bit
/// significand `sig` (leading bit included) times `2^(e - 52)`; the pattern
/// is exponent field `e + 1023` and fraction `sig - 2^52`, that is
/// `(e + 1022) * 2^52 + sig`, so a significand that rounds up to `2^53`
/// carries into the exponent.
pub open spec fn integer_bits(n: u64) -> u64 {
    if n == 0 {
        0
    } else {
        let e = top_bit(n as nat);
        let sig: int = if e <= 52 {
            n * pow2((52 - e) as nat)
        } else {
            round_shift(n as nat, (e - 52) as nat) as int
        };
        ((e + 1022) * FRACTION_UNIT + sig) as u64
    }
}

proof fn lemma_top_bit_bounds(n: nat)
    requires
        n >= 1,
    ensures
        pow2(top_bit(n)) <= n < pow2(top_bit(n) + 1),
    decreases n,
{
    lemma2_to64();
    if n >= 2 {
        lemma_top_bit_bounds(n / 2);
        lemma_pow2_unfold(top_bit(n));
        lemma_pow2_unfold(top_bit(n) + 1);
    }
}

/// `2^k`.
fn power_of_two(k: u64) -> (p: u64)
    requires
        k <= 63,
    ensures
        p == pow2(k as nat),
{
    proof {
        lemma2_to64();
    }
    let mut p: u64 = 1;
    let mut i: u64 = 0;
    while i < k
        invariant
            i <= k <= 63,
            p == pow2(i as nat),
        decreases k - i,
    {
        proof {
            lemma2_to64();
            lemma_pow2_unfold((i + 1) as nat);
            assert(pow2((i + 1) as nat) == 2 * pow2(i as nat));
            lemma_pow2_strictly_increases((i + 1) as nat, 64);
        }
        p = p * 2;
        i = i + 1;
    }
    p
}

/// The bit pattern of the binary64 value nearest to `n`: what an integer
/// literal stands for in an expression.
pub fn binary64_of_integer(n: u64) -> (r: u64)
    ensures
        r == integer_bits(n),
{
    if n == 0 {
        return 0;
    }
    proof {
        lemma2_to64();
        lemma2_to64_rest();
        lemma_top_bit_bounds(n as nat);
        if top_bit(n as nat) >= 64 {
            lemma_pow2_strictly_increases(64, top_bit(n as nat));
        }
    }
    let mut e: u64 = 0;
    let mut m: u64 = n;
    while m >= 2
        invariant
            1 <= m <= n,
            e + top_bit(m as nat) == top_bit(n as nat),
            e <= top_bit(n as nat),
            top_bit(n as nat) <= 63,
        decreases m,
    {
        m = m / 2;
        e = e + 1;
    }
    let ghost t = top_bit(n as nat);
    assert(e == t);
    assert(e <= 63);
    if e <= 52 {
        let p = power_of_two(52 - e);
        proof {
            lemma_pow2_adds((e + 1) as nat, (52 - e) as nat);
            lemma_pow2_pos((52 - e) as nat);
            let a = pow2((e + 1) as nat);
            let b = pow2((52 - e) as nat);
            assert(n * b < a * b) by (nonlinear_arith)
                requires
                    n < a,
                    b > 0,
            ;
        }
        let sig = n * p;
        (e + 1022) * FRACTION_UNIT + sig
    } else {
        let s = e - 52;
        let p = power_of_two(s);
        let q = n / p;
        let r = n % p;
        let h = p / 2;
        proof {
            lemma_pow2_unfold(s as nat);
            lemma_pow2_adds(53, s as nat);
            lemma_pow2_pos(s as nat);
            lemma_fundamental_div_mod(n as int, p as int);
            let top = pow2(53);
            assert(q < top) by (nonlinear_arith)
                requires
                    n == p * q + r,
                    0 <= r,
                    n < top * p,
                    p > 0,
            ;
        }
        let sig = if r > h || (r == h && q % 2 == 1) {
            q + 1
        } else {
            q
        };
        (e + 1022) * FRACTION_UNIT + sig
    }
}

} // verus!
