use vstd::prelude::*;
use vstd::arithmetic::power2::{pow2, lemma_pow2_unfold, lemma_pow2_pos, lemma2_to64_rest};

verus! {

/// Bit pattern of positive zero.
pub const ZERO_BITS: u64 = 0;

/// Bit pattern of positive infinity.
pub const INF_BITS: u64 = 0x7ff0_0000_0000_0000;

/// Bit pattern of negative infinity.
pub const NEG_INF_BITS: u64 = 0xfff0_0000_0000_0000;

/// Bit pattern of the canonical quiet not-a-number.
pub const NAN_BITS: u64 = 0x7ff8_0000_0000_0000;

/// The exponent field of a double.
pub const EXP_MASK: u64 = 0x7ff0_0000_0000_0000;

/// The fraction field of a double.
pub const FRAC_MASK: u64 = 0x000f_ffff_ffff_ffff;

/// The sign bit of a double.
pub const SIGN_BIT: u64 = 0x8000_0000_0000_0000;

/// Whether a bit pattern encodes a not-a-number: every exponent bit set and a
/// non-zero fraction.
pub open spec fn nan_bits(b: u64) -> bool {
    b & EXP_MASK == EXP_MASK && b & FRAC_MASK != 0
}

/// Position of a non-not-a-number double on the number line, up to scale:
/// for such doubles `a < b` as numbers exactly when `order_key(a) < order_key(b)`.
/// Both zeros sit at 0.
pub open spec fn order_key(b: u64) -> int {
    if b >= SIGN_BIT {
        -((b - SIGN_BIT) as int)
    } else {
        b as int
    }
}

/// The smaller of two doubles, not-a-number giving way to the other operand
/// and ties going to the first.
pub open spec fn min_bits(x: u64, y: u64) -> u64 {
    if nan_bits(x) {
        y
    } else if nan_bits(y) {
        x
    } else if order_key(y) < order_key(x) {
        y
    } else {
        x
    }
}

/// The larger of two doubles, not-a-number giving way to the other operand
/// and ties going to the first.
pub open spec fn max_bits(x: u64, y: u64) -> u64 {
    if nan_bits(x) {
        y
    } else if nan_bits(y) {
        x
    } else if order_key(x) < order_key(y) {
        y
    } else {
        x
    }
}

/// The bits of the double nearest to `n`, given that `e` is the position of
/// the highest set bit of `n`: the biased exponent, then the 52 bits below the
/// highest one. Where `n` has more than 53 significant bits, the significand
/// is rounded to nearest, ties to even; a carry out of the significand moves
/// into the exponent by the same addition.
pub open spec fn bits_at(n: nat, e: nat) -> int {
    if e <= 52 {
        (1023 + e) * pow2(52) + ((n - pow2(e)) * pow2(52)) / (pow2(e) as int)
    } else {
        let s = (e - 52) as nat;
        let m = n / pow2(s);
        let rem = n % pow2(s);
        let half = pow2((s - 1) as nat);
        let up = rem > half || (rem == half && m % 2 == 1);
        (1023 + e) * pow2(52) + (if up {
            m + 1
        } else {
            m
        }) - pow2(52)
    }
}

/// `b` is the double nearest to the natural number `n` (ties to even): zero
/// for zero, else `bits_at` at the highest set bit of `n`.
pub open spec fn count_bits(b: u64, n: nat) -> bool {
    if n == 0 {
        b == ZERO_BITS
    } else {
        exists|e: nat| #![trigger pow2(e)] pow2(e) <= n < 2 * pow2(e) && b as int == bits_at(n, e)
    }
}

/// The double nearest to the natural number `n`.
pub open spec fn count_to_bits(n: nat) -> u64 {
    choose|b: u64| count_bits(b, n)
}

/// A natural number has one nearest double.
pub proof fn lemma_count_bits_unique(b1: u64, b2: u64, n: nat)
    requires
        count_bits(b1, n),
        count_bits(b2, n),
    ensures
        b1 == b2,
{
    if n > 0 {
        let e1 = choose|e: nat| #![trigger pow2(e)] pow2(e) <= n < 2 * pow2(e) && b1 as int == bits_at(n, e);
        let e2 = choose|e: nat| #![trigger pow2(e)] pow2(e) <= n < 2 * pow2(e) && b2 as int == bits_at(n, e);
        if e1 < e2 {
            lemma_pow2_unfold((e1 + 1) as nat);
            if e1 + 1 < e2 {
                vstd::arithmetic::power2::lemma_pow2_strictly_increases((e1 + 1) as nat, e2);
            }
        } else if e2 < e1 {
            lemma_pow2_unfold((e2 + 1) as nat);
            if e2 + 1 < e1 {
                vstd::arithmetic::power2::lemma_pow2_strictly_increases((e2 + 1) as nat, e1);
            }
        }
    }
}

/// An IEEE-754 double held by its bit pattern.
#[derive(Clone, Copy, Debug)]
pub struct Float {
    pub bits: u64,
}

/// Whether `a` orders strictly before `b` by `order_key`.
fn key_less(a: u64, b: u64) -> (r: bool)
    ensures
        r == (order_key(a) < order_key(b)),
{
    let sa = a >= SIGN_BIT;
    let sb = b >= SIGN_BIT;
    if !sa && !sb {
        a < b
    } else if sa && sb {
        a > b
    } else if sa {
        !(a == SIGN_BIT && b == 0)
    } else {
        false
    }
}

impl Float {
    pub fn from_bits(bits: u64) -> (r: Float)
        ensures
            r.bits == bits,
    {
        Float { bits }
    }

    pub fn to_bits(&self) -> (r: u64)
        ensures
            r == self.bits,
    {
        self.bits
    }

    /// The canonical not-a-number, which stands for an absent value.
    pub fn nan() -> (r: Float)
        ensures
            r.bits == NAN_BITS,
            nan_bits(r.bits),
    {
        assert(nan_bits(NAN_BITS)) by (bit_vector);
        Float { bits: NAN_BITS }
    }

    pub fn infinity() -> (r: Float)
        ensures
            r.bits == INF_BITS,
    {
        Float { bits: INF_BITS }
    }

    pub fn neg_infinity() -> (r: Float)
        ensures
            r.bits == NEG_INF_BITS,
    {
        Float { bits: NEG_INF_BITS }
    }

    pub fn is_nan(&self) -> (r: bool)
        ensures
            r == nan_bits(self.bits),
    {
        self.bits & EXP_MASK == EXP_MASK && self.bits & FRAC_MASK != 0
    }

    /// The smaller of `self` and `y`; a not-a-number operand yields the other.
    pub fn min(self, y: Float) -> (r: Float)
        ensures
            r.bits == min_bits(self.bits, y.bits),
    {
        if self.is_nan() {
            y
        } else if y.is_nan() {
            self
        } else if key_less(y.bits, self.bits) {
            y
        } else {
            self
        }
    }

    /// The larger of `self` and `y`; a not-a-number operand yields the other.
    pub fn max(self, y: Float) -> (r: Float)
        ensures
            r.bits == max_bits(self.bits, y.bits),
    {
        if self.is_nan() {
            y
        } else if y.is_nan() {
            self
        } else if key_less(self.bits, y.bits) {
            y
        } else {
            self
        }
    }

    /// The double nearest to the integer `n`, ties to even.
    pub fn from_count(n: u64) -> (r: Float)
        ensures
            count_bits(r.bits, n as nat),
            r.bits == count_to_bits(n as nat),
    {
        if n == 0 {
            proof {
                assert(count_bits(ZERO_BITS, 0));
                lemma_count_bits_unique(ZERO_BITS, count_to_bits(0), 0);
            }
            return Float { bits: ZERO_BITS };
        }
        let mut p: u64 = 1;
        let mut e: u64 = 0;
        proof {
            vstd::arithmetic::power2::lemma2_to64();
        }
        while p <= n / 2
            invariant
                1 <= p <= n,
                p == pow2(e as nat),
                e <= 63,
            decreases n - p,
        {
            proof {
                lemma_pow2_unfold((e + 1) as nat);
                if e >= 63 {
                    lemma2_to64_rest();
                }
            }
            p = p * 2;
            e = e + 1;
        }
        let two52: u64 = 0x10_0000_0000_0000;
        let bits: u64;
        proof {
            lemma2_to64_rest();
            lemma_pow2_pos(e as nat);
        }
        if e <= 52 {
            let frac: u128 = ((n - p) as u128 * two52 as u128) / (p as u128);
            proof {
                assert(frac <= two52) by (nonlinear_arith)
                    requires
                        frac as int == ((n - p) as int * two52 as int) / (p as int),
                        n < 2 * p,
                        p <= n,
                        p > 0,
                        two52 == 0x10_0000_0000_0000,
                ;
            }
            bits = ((1023 + e) * two52 + frac as u64) as u64;
        } else {
            let s: u64 = e - 52;
            proof {
                vstd::arithmetic::power2::lemma_pow2_adds(s as nat, 52);
                lemma_pow2_unfold(s as nat);
            }
            let ps: u64 = p / two52;
            proof {
                assert(ps == pow2(s as nat)) by (nonlinear_arith)
                    requires
                        p == pow2(s as nat) * two52,
                        ps == p / two52,
                        two52 > 0,
                ;
            }
            let m: u64 = n / ps;
            let rem: u64 = n % ps;
            let half: u64 = ps / 2;
            proof {
                assert(m < 2 * two52) by (nonlinear_arith)
                    requires
                        m == n / ps,
                        ps > 0,
                        n < 2 * p,
                        p == ps * two52,
                ;
            }
            let up: bool = rem > half || (rem == half && m % 2 == 1);
            let m2: u64 = if up { m + 1 } else { m };
            bits = (1023 + e) * two52 + m2 - two52;
        }
        proof {
            assert(count_bits(bits, n as nat));
            lemma_count_bits_unique(bits, count_to_bits(n as nat), n as nat);
        }
        Float { bits }
    }
}

} // verus!
