//! The exponent sweep: a symmetric range of integer offsets around zero, each
//! of which stands for one real exponent of the recurrence.
use crate::ratio::Ratio;
use vstd::prelude::*;

verus! {

/// The largest half-width of a sweep. With it every offset, and the number of
/// samples, fits in an `i64`.
pub const MAX_SAMPLES: u64 = 0x3fff_ffff_ffff_ffff;

/// The number of samples in a sweep of half-width `samples`.
pub open spec fn sample_count(samples: nat) -> nat {
    2 * samples + 1
}

/// Whether the offset `i` belongs to the sweep of half-width `samples`.
pub open spec fn in_sweep(samples: nat, i: int) -> bool {
    -(samples as int) <= i <= samples as int
}

/// Numerator of the position of offset `i` in the sweep, as a fraction of the
/// half-width. A sweep of half-width zero has the single position `0 / 1`.
pub open spec fn position_num(samples: nat, i: int) -> int {
    if samples == 0 {
        0
    } else {
        i
    }
}

/// Denominator that goes with [`position_num`]. It is never zero.
pub open spec fn position_den(samples: nat) -> int {
    if samples == 0 {
        1
    } else {
        samples as int
    }
}

/// A sweep of `2 * samples + 1` exponents, centred on the classical exponent.
pub struct Sweep {
    samples: u64,
}

impl Sweep {
    #[verifier::type_invariant]
    spec fn within_limit(self) -> bool {
        self.samples <= MAX_SAMPLES
    }

    /// The half-width of the sweep.
    pub closed spec fn half_width(self) -> nat {
        self.samples as nat
    }

    /// A sweep of half-width `samples`, unless that is more than
    /// [`MAX_SAMPLES`].
    pub fn new(samples: u64) -> (r: Option<Sweep>)
        ensures
            r is Some <==> samples <= MAX_SAMPLES,
            r is Some ==> r.unwrap().half_width() == samples,
    {
        if samples <= MAX_SAMPLES {
            Some(Sweep { samples })
        } else {
            None
        }
    }

    /// The half-width the sweep was made with.
    pub fn samples(&self) -> (n: u64)
        ensures
            n == self.half_width(),
            n <= MAX_SAMPLES,
    {
        proof {
            use_type_invariant(self);
        }
        self.samples
    }

    /// How many exponents the sweep visits.
    pub fn count(&self) -> (n: u64)
        ensures
            n == sample_count(self.half_width()),
    {
        proof {
            use_type_invariant(self);
        }
        2 * self.samples + 1
    }

    /// The lowest offset of the sweep.
    pub fn first(&self) -> (i: i64)
        ensures
            i == -(self.half_width() as int),
    {
        proof {
            use_type_invariant(self);
        }
        let s: i64 = self.samples as i64;
        -s
    }

    /// The highest offset of the sweep.
    pub fn last(&self) -> (i: i64)
        ensures
            i == self.half_width(),
    {
        proof {
            use_type_invariant(self);
        }
        self.samples as i64
    }

    /// Where the offset `i` lies in the sweep, as a fraction between minus one
    /// and one; `None` for an offset outside the sweep.
    pub fn position(&self, i: i64) -> (r: Option<Ratio>)
        ensures
            r is Some <==> in_sweep(self.half_width(), i as int),
            r is Some ==> r.unwrap().num == position_num(self.half_width(), i as int),
            r is Some ==> r.unwrap().den == position_den(self.half_width()),
    {
        proof {
            use_type_invariant(self);
        }
        let s: i64 = self.samples as i64;
        if i < -s || i > s {
            None
        } else if s == 0 {
            Some(Ratio { num: 0, den: 1 })
        } else {
            Some(Ratio { num: i, den: s })
        }
    }
}

/// Every position of a sweep is a fraction with a positive denominator whose
/// value lies between minus one and one.
pub proof fn lemma_position_is_bounded(samples: nat, i: int)
    requires
        in_sweep(samples, i),
    ensures
        position_den(samples) > 0,
        -position_den(samples) <= position_num(samples, i) <= position_den(samples),
{
}

/// A sweep of half-width zero has one sample, the offset zero, and its
/// position is exactly `0 / 1`.
pub proof fn lemma_single_sample(i: int)
    requires
        in_sweep(0, i),
    ensures
        sample_count(0) == 1,
        i == 0,
        position_num(0, i) == 0,
        position_den(0) == 1,
{
}

/// The middle of every sweep is the position zero, and a sweep that has more
/// than one sample starts at minus one and ends at one.
pub proof fn lemma_sweep_ends(samples: nat)
    ensures
        in_sweep(samples, 0),
        position_num(samples, 0) == 0,
        samples > 0 ==> position_num(samples, -(samples as int)) == -position_den(samples),
        samples > 0 ==> position_num(samples, samples as int) == position_den(samples),
{
}

/// Positions grow with the offset, and the sweep is symmetric about zero.
pub proof fn lemma_sweep_is_ordered_and_symmetric(samples: nat, i: int, j: int)
    requires
        in_sweep(samples, i),
        in_sweep(samples, j),
        i < j,
    ensures
        samples > 0,
        position_num(samples, i) < position_num(samples, j),
        in_sweep(samples, -i),
        position_num(samples, -i) == -position_num(samples, i),
{
}

/// The offsets of a sweep are as many as [`sample_count`] says.
pub proof fn lemma_sweep_size(samples: nat)
    ensures
        Set::new(|i: int| in_sweep(samples, i)).finite(),
        Set::new(|i: int| in_sweep(samples, i)).len() == sample_count(samples),
{
    let lo = -(samples as int);
    let hi = samples as int + 1;
    vstd::set_lib::lemma_int_range(lo, hi);
    assert(Set::new(|i: int| in_sweep(samples, i)) =~= vstd::set_lib::set_int_range(lo, hi));
}

} // verus!
