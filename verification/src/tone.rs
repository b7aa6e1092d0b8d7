//! Bringing an accumulated colour back into the displayable range.
//!
//! A colour whose channels were averaged over the sweep may exceed one. It is
//! then halved, all three channels at once, until no channel exceeds one:
//! the hue stays and the brightness comes into range.
use crate::binary64::{
    lemma_half_is_rounded, lemma_half_keeps_kind, lemma_scale_order, scale, Binary64, HIDDEN,
    INFINITE, ONE,
};
use vstd::arithmetic::power2::{lemma2_to64, lemma_pow2_unfold, pow2};
use vstd::prelude::*;

verus! {

/// The most halvings that any colour without an infinite channel needs.
pub const MAX_HALVINGS: u64 = 1024;

/// Whether `x > 1.0`.
pub open spec fn exceeds_one(x: Binary64) -> bool {
    (Binary64 { bits: ONE }).lt(x)
}

/// Whether `x` is plus infinity, the one value that halving never brings
/// down to one.
pub open spec fn is_plus_infinity(x: Binary64) -> bool {
    x.bits == INFINITE
}

/// How many halvings bring `x` down to one or below: none for a number that
/// does not exceed one, else the binades between one and `x`, the one that `x`
/// lies in counted unless `x` is its lower end.
pub open spec fn halvings_for(x: Binary64) -> nat {
    if exceeds_one(x) {
        ((x.magnitude() - ONE + HIDDEN - 1) / (HIDDEN as int)) as nat
    } else {
        0
    }
}

/// The largest of three numbers.
pub open spec fn largest(a: nat, b: nat, c: nat) -> nat {
    if a >= b && a >= c {
        a
    } else if b >= c {
        b
    } else {
        c
    }
}

/// A colour of three channels, each a double-precision number.
#[derive(Clone, Copy, Debug, PartialEq, Eq, Structural)]
pub struct Colour {
    pub red: Binary64,
    pub green: Binary64,
    pub blue: Binary64,
}

impl Colour {
    /// Whether any channel exceeds one.
    pub open spec fn any_exceeds_one(self) -> bool {
        exceeds_one(self.red) || exceeds_one(self.green) || exceeds_one(self.blue)
    }

    /// Whether any channel is plus infinity.
    pub open spec fn has_plus_infinity(self) -> bool {
        is_plus_infinity(self.red) || is_plus_infinity(self.green) || is_plus_infinity(self.blue)
    }

    /// The colour with every channel halved `n` times.
    pub open spec fn halved_times(self, n: nat) -> Colour {
        Colour {
            red: self.red.half_times(n),
            green: self.green.half_times(n),
            blue: self.blue.half_times(n),
        }
    }

    /// How many halvings bring every channel down to one or below.
    pub open spec fn halvings(self) -> nat {
        largest(halvings_for(self.red), halvings_for(self.green), halvings_for(self.blue))
    }
}

/// Whether `x > 1.0`.
pub fn is_above_one(x: Binary64) -> (r: bool)
    ensures
        r == exceeds_one(x),
{
    Binary64::from_bits(ONE).less_than(x)
}

/// Halves all three channels of `c` together until none exceeds one, and
/// returns the colour so reached; a colour that is in range comes back as it
/// is. A colour with a channel at plus infinity can never be brought into
/// range: for it the result is `None`.
pub fn settle(c: Colour) -> (r: Option<Colour>)
    ensures
        r is Some <==> !c.has_plus_infinity(),
        r is Some ==> r.unwrap() == c.halved_times(c.halvings()),
        r is Some ==> !r.unwrap().any_exceeds_one(),
        r is Some ==> forall|n: nat|
            n < c.halvings() ==> (#[trigger] c.halved_times(n)).any_exceeds_one(),
{
    if c.red.to_bits() == INFINITE || c.green.to_bits() == INFINITE || c.blue.to_bits()
        == INFINITE {
        return None;
    }
    proof {
        assert forall|n: nat| n < c.halvings() implies (#[trigger] c.halved_times(
            n,
        )).any_exceeds_one() by {
            lemma_settle_ends(c, n);
        }
    }
    let mut cur = c;
    let ghost mut done: nat = 0;
    while is_above_one(cur.red) || is_above_one(cur.green) || is_above_one(cur.blue)
        invariant
            !cur.has_plus_infinity(),
            cur == c.halved_times(done),
            done + cur.halvings() == c.halvings(),
        decreases cur.halvings(),
    {
        proof {
            lemma_halvings_step(cur.red);
            lemma_halvings_step(cur.green);
            lemma_halvings_step(cur.blue);
            done = done + 1;
        }
        cur = Colour { red: cur.red.halved(), green: cur.green.halved(), blue: cur.blue.halved() };
    }
    proof {
        lemma_halvings_step(cur.red);
        lemma_halvings_step(cur.green);
        lemma_halvings_step(cur.blue);
    }
    Some(cur)
}

/// A number exceeds one exactly if it needs a halving, and every halving of a
/// number other than plus infinity takes one off what it needs.
pub proof fn lemma_halvings_step(x: Binary64)
    requires
        !is_plus_infinity(x),
    ensures
        exceeds_one(x) <==> halvings_for(x) > 0,
        halvings_for(x) <= MAX_HALVINGS,
        halvings_for(x.half()) == if halvings_for(x) > 0 {
            halvings_for(x) - 1
        } else {
            0
        },
        !is_plus_infinity(x.half()),
{
    let one = Binary64 { bits: ONE };
    let m = x.magnitude();
    let r = x.half().magnitude();
    lemma_half_keeps_kind(x);
    lemma_scale_order(ONE as nat, m);
    lemma_scale_order(m, ONE as nat);
    lemma_scale_order(0, ONE as nat);
    lemma_scale_order(ONE as nat, r);
    lemma_scale_order(r, ONE as nat);
    assert(one.magnitude() == ONE);
    assert(one.scaled() == scale(ONE as nat));
}

/// The loop of [`settle`] always ends: a colour without an infinite channel
/// needs at most [`MAX_HALVINGS`] halvings, after them no channel exceeds
/// one, and before them some channel still does.
pub proof fn lemma_settle_ends(c: Colour, n: nat)
    requires
        !c.has_plus_infinity(),
    ensures
        c.halvings() <= MAX_HALVINGS,
        !c.halved_times(n).has_plus_infinity(),
        c.halved_times(n).halvings() == if n <= c.halvings() {
            c.halvings() - n
        } else {
            0
        },
        c.halved_times(n).any_exceeds_one() <==> n < c.halvings(),
    decreases n,
{
    if n == 0 {
        lemma_halvings_step(c.red);
        lemma_halvings_step(c.green);
        lemma_halvings_step(c.blue);
    } else {
        let before = c.halved_times((n - 1) as nat);
        lemma_settle_ends(c, (n - 1) as nat);
        lemma_halvings_step(before.red);
        lemma_halvings_step(before.green);
        lemma_halvings_step(before.blue);
        let after = c.halved_times(n);
        lemma_halvings_step(after.red);
        lemma_halvings_step(after.green);
        lemma_halvings_step(after.blue);
    }
}

/// Halving never makes a channel larger in magnitude.
pub proof fn lemma_halving_shrinks(x: Binary64, n: nat)
    requires
        !x.is_nan(),
    ensures
        !x.half_times(n).is_nan(),
        x.half_times(n).is_negative() == x.is_negative(),
        x.half_times(n).magnitude() <= x.magnitude(),
    decreases n,
{
    if n > 0 {
        lemma_halving_shrinks(x, (n - 1) as nat);
        lemma_half_keeps_kind(x.half_times((n - 1) as nat));
    }
}

/// Halving is exact as long as the result is a normal number: `n` halvings of
/// a finite number whose exponent field is more than `n` divide it by `2^n`
/// with no rounding. Zero stays zero.
pub proof fn lemma_halving_is_exact(x: Binary64, n: nat)
    requires
        x.is_finite(),
        x.magnitude() == 0 || x.exponent() > n,
    ensures
        x.half_times(n).is_finite(),
        x.half_times(n).is_negative() == x.is_negative(),
        x.magnitude() == 0 ==> x.half_times(n).magnitude() == 0,
        x.magnitude() != 0 ==> x.half_times(n).exponent() == x.exponent() - n,
        x.half_times(n).fraction() == x.fraction(),
        x.half_times(n).scaled() * pow2(n) == x.scaled(),
    decreases n,
{
    lemma2_to64();
    if n > 0 {
        let y = x.half_times((n - 1) as nat);
        lemma_halving_is_exact(x, (n - 1) as nat);
        lemma_half_keeps_kind(y);
        lemma_half_is_rounded(y);
        lemma_pow2_unfold(n);
        let p = pow2((n - 1) as nat) as int;
        let s = y.half().scaled();
        if x.magnitude() != 0 {
            assert(y.magnitude() >= 2 * HIDDEN);
        } else {
            lemma_scale_order(0, 0);
        }
        assert(2 * s == y.scaled());
        assert(s * (2 * p) == (2 * s) * p) by (nonlinear_arith);
    }
}

/// Halving keeps the ratio between channels: where two channels are halved
/// the same number of times, and both exactly, they stand to each other
/// afterwards as they did before.
pub proof fn lemma_halving_keeps_ratio(x: Binary64, y: Binary64, n: nat)
    requires
        x.is_finite(),
        y.is_finite(),
        x.magnitude() == 0 || x.exponent() > n,
        y.magnitude() == 0 || y.exponent() > n,
    ensures
        x.scaled() * y.half_times(n).scaled() == y.scaled() * x.half_times(n).scaled(),
{
    lemma_halving_is_exact(x, n);
    lemma_halving_is_exact(y, n);
    let p = pow2(n) as int;
    let a = x.half_times(n).scaled();
    let b = y.half_times(n).scaled();
    assert((a * p) * b == (b * p) * a) by (nonlinear_arith);
}

} // verus!
