//! Double-precision numbers as their sixty-four bits.
//!
//! A number is held as the bit pattern that IEEE 754 gives it: one sign bit,
//! eleven bits of exponent and fifty-two bits of fraction. Its meaning is
//! stated over integers: the magnitude of every number that is not a NaN is a
//! whole multiple of `2^-1074`, the smallest positive double, and
//! [`Binary64::scaled`] is that multiple, with the sign. Order and halving are
//! defined on these integers, and the executable functions are proved against
//! them.
use vstd::arithmetic::mul::lemma_mul_strict_inequality;
use vstd::arithmetic::power2::{
    lemma2_to64, lemma2_to64_rest, lemma_pow2_adds, lemma_pow2_pos, lemma_pow2_strictly_increases,
    lemma_pow2_unfold, pow2,
};
use vstd::prelude::*;

verus! {

/// The sign bit.
pub const SIGN: u64 = 0x8000_0000_0000_0000;

/// The weight of the lowest exponent bit, which is also the hidden leading bit
/// of a normal number's significand: `2^52`.
pub const HIDDEN: u64 = 0x0010_0000_0000_0000;

/// The magnitude bits of infinity: every exponent bit set, no fraction bit.
pub const INFINITE: u64 = 0x7ff0_0000_0000_0000;

/// The bits of `1.0`.
pub const ONE: u64 = 0x3ff0_0000_0000_0000;

/// The bits of `2.0`.
pub const TWO: u64 = 0x4000_0000_0000_0000;

/// How many steps of `2^-1074` make up one: the exponent of the unit.
pub open spec fn unit_exponent() -> nat {
    1074
}

/// The multiple of `2^-1074` that the magnitude bits `m` stand for. Below
/// `2^52` the bits are a subnormal number and count the steps themselves; from
/// there on the significand, with its hidden bit, is doubled once for every
/// step of the exponent.
pub open spec fn scale(m: nat) -> nat {
    if m < HIDDEN {
        m
    } else {
        ((HIDDEN + m % (HIDDEN as nat)) * pow2((m / (HIDDEN as nat) - 1) as nat)) as nat
    }
}

/// Whether `t` is `s / 2` rounded to a whole number, a tie going to the even
/// one: the half itself where `s` is even, else the even one of its two
/// neighbours.
pub open spec fn is_nearest_half(t: int, s: int) -> bool {
    2 * t == s || (s % 2 == 1 && t % 2 == 0 && (2 * t == s + 1 || 2 * t == s - 1))
}

/// The magnitude bits of half the number with magnitude bits `m`, rounded to
/// the nearest double, a tie going to the even one. A normal number above the
/// smallest binade loses one step of its exponent; below that the count of
/// steps itself is halved. Infinity stays, and a NaN stays a NaN, made quiet.
pub open spec fn half_magnitude(m: nat) -> nat {
    if m > INFINITE {
        if m % (HIDDEN as nat) < HIDDEN / 2 {
            m + (HIDDEN / 2) as nat
        } else {
            m
        }
    } else if m == INFINITE {
        m
    } else if m >= 2 * HIDDEN {
        (m - HIDDEN) as nat
    } else if m % 2 == 1 && (m / 2) % 2 == 1 {
        m / 2 + 1
    } else {
        m / 2
    }
}

/// A double-precision number, held as its bits.
#[derive(Clone, Copy, Debug, PartialEq, Eq, Structural)]
pub struct Binary64 {
    pub bits: u64,
}

impl Binary64 {
    /// Whether the sign bit is set.
    pub open spec fn is_negative(self) -> bool {
        self.bits >= SIGN
    }

    /// The bits without the sign.
    pub open spec fn magnitude(self) -> nat {
        if self.bits >= SIGN {
            (self.bits - SIGN) as nat
        } else {
            self.bits as nat
        }
    }

    /// The exponent field.
    pub open spec fn exponent(self) -> nat {
        self.magnitude() / (HIDDEN as nat)
    }

    /// The fraction field.
    pub open spec fn fraction(self) -> nat {
        self.magnitude() % (HIDDEN as nat)
    }

    /// Whether the bits are a NaN.
    pub open spec fn is_nan(self) -> bool {
        self.magnitude() > INFINITE
    }

    /// Whether the bits are plus or minus infinity.
    pub open spec fn is_infinite(self) -> bool {
        self.magnitude() == INFINITE
    }

    /// Whether the bits are a number: zero, subnormal or normal.
    pub open spec fn is_finite(self) -> bool {
        self.magnitude() < INFINITE
    }

    /// The number as a signed multiple of `2^-1074`. Infinity counts as the
    /// multiple that its bits would stand for, which is more than that of any
    /// finite number; of a NaN the result means nothing.
    pub open spec fn scaled(self) -> int {
        if self.is_negative() {
            -(scale(self.magnitude()) as int)
        } else {
            scale(self.magnitude()) as int
        }
    }

    /// `self < other` as IEEE 754 orders numbers: false when either is a NaN.
    pub open spec fn lt(self, other: Binary64) -> bool {
        !self.is_nan() && !other.is_nan() && self.scaled() < other.scaled()
    }

    /// `self <= other` as IEEE 754 orders numbers: false when either is a NaN.
    pub open spec fn le(self, other: Binary64) -> bool {
        !self.is_nan() && !other.is_nan() && self.scaled() <= other.scaled()
    }

    /// Half of the number: what the division by two of IEEE 754 gives, with
    /// the sign kept.
    pub open spec fn half(self) -> Binary64 {
        if self.is_negative() {
            Binary64 { bits: (SIGN + half_magnitude(self.magnitude())) as u64 }
        } else {
            Binary64 { bits: half_magnitude(self.magnitude()) as u64 }
        }
    }

    /// The number halved `n` times in a row.
    pub open spec fn half_times(self, n: nat) -> Binary64
        decreases n,
    {
        if n == 0 {
            self
        } else {
            self.half_times((n - 1) as nat).half()
        }
    }

    /// The number with the given bits.
    pub fn from_bits(bits: u64) -> (x: Binary64)
        ensures
            x.bits == bits,
    {
        Binary64 { bits }
    }

    /// The bits of the number.
    pub fn to_bits(self) -> (bits: u64)
        ensures
            bits == self.bits,
    {
        self.bits
    }

    /// The bits without the sign.
    fn magnitude_bits(self) -> (m: u64)
        ensures
            m == self.magnitude(),
            m < SIGN,
    {
        if self.bits >= SIGN {
            self.bits - SIGN
        } else {
            self.bits
        }
    }

    /// Whether the number is a NaN.
    pub fn is_not_a_number(self) -> (r: bool)
        ensures
            r == self.is_nan(),
    {
        self.magnitude_bits() > INFINITE
    }

    /// Whether `self < other`; false when either is a NaN.
    pub fn less_than(self, other: Binary64) -> (r: bool)
        ensures
            r == self.lt(other),
    {
        let a: u64 = self.magnitude_bits();
        let b: u64 = other.magnitude_bits();
        proof {
            lemma_scale_order(a as nat, b as nat);
            lemma_scale_order(b as nat, a as nat);
            lemma_scale_order(0, a as nat);
            lemma_scale_order(0, b as nat);
        }
        if a > INFINITE || b > INFINITE {
            false
        } else if self.bits >= SIGN {
            if other.bits >= SIGN {
                b < a
            } else {
                a != 0 || b != 0
            }
        } else {
            if other.bits >= SIGN {
                false
            } else {
                a < b
            }
        }
    }

    /// Whether `self <= other`; false when either is a NaN.
    pub fn at_most(self, other: Binary64) -> (r: bool)
        ensures
            r == self.le(other),
    {
        let a: u64 = self.magnitude_bits();
        let b: u64 = other.magnitude_bits();
        proof {
            lemma_scale_order(a as nat, b as nat);
            lemma_scale_order(b as nat, a as nat);
            lemma_scale_order(0, a as nat);
            lemma_scale_order(0, b as nat);
        }
        if a > INFINITE || b > INFINITE {
            false
        } else if self.bits >= SIGN {
            if other.bits >= SIGN {
                b <= a
            } else {
                true
            }
        } else {
            if other.bits >= SIGN {
                a == 0 && b == 0
            } else {
                a <= b
            }
        }
    }

    /// Half of the number: for a finite number the nearest double to its
    /// half, a tie going to the even one; infinity as it is; a NaN made quiet.
    pub fn halved(self) -> (r: Binary64)
        ensures
            r == self.half(),
            r.is_negative() == self.is_negative(),
            self.is_finite() ==> r.is_finite() && is_nearest_half(
                scale(r.magnitude()) as int,
                scale(self.magnitude()) as int,
            ),
            self.is_infinite() ==> r == self,
            self.is_nan() ==> r.is_nan(),
    {
        proof {
            lemma_half_keeps_kind(self);
            if self.is_finite() {
                lemma_half_is_rounded(self);
            }
        }
        let m: u64 = self.magnitude_bits();
        let h: u64 = if m > INFINITE {
            if m % HIDDEN < HIDDEN / 2 {
                m + HIDDEN / 2
            } else {
                m
            }
        } else if m == INFINITE {
            m
        } else if m >= 2 * HIDDEN {
            m - HIDDEN
        } else if m % 2 == 1 && (m / 2) % 2 == 1 {
            m / 2 + 1
        } else {
            m / 2
        };
        if self.bits >= SIGN {
            Binary64 { bits: SIGN + h }
        } else {
            Binary64 { bits: h }
        }
    }
}

/// Magnitude bits and the multiples they stand for are ordered alike: the
/// encoding of magnitudes is strictly increasing.
pub proof fn lemma_scale_order(a: nat, b: nat)
    ensures
        a < b ==> scale(a) < scale(b),
        scale(0) == 0,
{
    if a < b {
        lemma_scale_increases(a, b);
    }
}

proof fn lemma_scale_increases(a: nat, b: nat)
    requires
        a < b,
    ensures
        scale(a) < scale(b),
{
    let h = HIDDEN as nat;
    let ea = a / h;
    let fa = a % h;
    let eb = b / h;
    let fb = b % h;
    if b < h {
    } else if a < h {
        let p = pow2((eb - 1) as nat);
        lemma_pow2_pos((eb - 1) as nat);
        assert((h + fb) * p >= h) by (nonlinear_arith)
            requires
                p >= 1,
                h > 0,
                fb >= 0,
        ;
    } else if ea == eb {
        let p = pow2((ea - 1) as nat);
        lemma_pow2_pos((ea - 1) as nat);
        lemma_mul_strict_inequality((h + fa) as int, (h + fb) as int, p as int);
    } else {
        assert(ea < eb);
        let pa = pow2((ea - 1) as nat);
        let pb = pow2((eb - 1) as nat);
        lemma_pow2_pos((ea - 1) as nat);
        lemma_pow2_unfold(ea);
        if ea < eb - 1 {
            lemma_pow2_strictly_increases(ea, (eb - 1) as nat);
        }
        assert(pow2(ea) <= pb);
        assert(2 * pa <= pb);
        assert((h + fa) * pa < (h + fb) * pb) by (nonlinear_arith)
            requires
                2 * pa <= pb,
                pa >= 1,
                fa < h,
                fb >= 0,
                h > 0,
        ;
    }
}

/// Halving keeps the sign and the kind of a number, and makes no number
/// larger in magnitude.
pub proof fn lemma_half_keeps_kind(x: Binary64)
    ensures
        x.half().is_negative() == x.is_negative(),
        x.half().is_nan() == x.is_nan(),
        x.half().is_infinite() == x.is_infinite(),
        x.half().magnitude() == half_magnitude(x.magnitude()),
        x.is_infinite() ==> x.half() == x,
        !x.is_nan() ==> x.half().magnitude() <= x.magnitude(),
{
}

/// The half of a finite number stands for half the multiple, rounded to the
/// nearest whole one with a tie going to the even one. From the second
/// binade on, where the exponent field is at least two, nothing is rounded.
pub proof fn lemma_half_is_rounded(x: Binary64)
    requires
        x.is_finite(),
    ensures
        is_nearest_half(scale(x.half().magnitude()) as int, scale(x.magnitude()) as int),
        x.exponent() >= 2 ==> 2 * scale(x.half().magnitude()) == scale(x.magnitude()),
        x.exponent() >= 2 ==> x.half().exponent() == x.exponent() - 1 && x.half().fraction()
            == x.fraction(),
{
    let h = HIDDEN as nat;
    let m = x.magnitude();
    lemma2_to64();
    if m >= 2 * h {
        let e = m / h;
        let f = m % h;
        let p = pow2((e - 2) as nat);
        lemma_pow2_unfold((e - 1) as nat);
        assert((m - h) / (h as int) == e - 1);
        assert((m - h) % (h as int) == f);
        assert((h + f) * (2 * p) == 2 * ((h + f) * p)) by (nonlinear_arith);
        assert(scale(m) == (h + f) * (2 * p));
        assert(scale((m - h) as nat) == (h + f) * p);
    } else {
        lemma_scale_of_small(m);
        lemma_scale_of_small(half_magnitude(m));
    }
}

/// Up to the end of the smallest binade the magnitude bits count the steps
/// themselves.
proof fn lemma_scale_of_small(m: nat)
    requires
        m <= 2 * HIDDEN,
    ensures
        scale(m) == m,
{
    let h = HIDDEN as nat;
    lemma2_to64();
    lemma_pow2_unfold(1);
    if m >= h {
        if m < 2 * h {
            assert(m / h == 1);
            assert(m % h == m - h);
            assert((h + (m - h)) * 1 == m);
        } else {
            assert(m / h == 2);
            assert(m % h == 0);
            assert(h * 2 == m);
        }
    }
}

/// The bits [`ONE`] and [`TWO`] stand for one and for two.
pub proof fn lemma_small_integers()
    ensures
        (Binary64 { bits: ONE }).scaled() == pow2(unit_exponent()),
        (Binary64 { bits: TWO }).scaled() == 2 * pow2(unit_exponent()),
        (Binary64 { bits: 0 }).scaled() == 0,
{
    lemma2_to64_rest();
    lemma_pow2_adds(52, 1022);
    lemma_pow2_adds(52, 1023);
    lemma_pow2_unfold(1075);
}

} // verus!
