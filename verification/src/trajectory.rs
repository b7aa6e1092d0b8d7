//! The control of one escape run: how many iterates a trajectory takes before
//! it escapes or reaches its cap.
use crate::binary64::{scale, unit_exponent, Binary64};
use vstd::arithmetic::power2::{lemma2_to64_rest, lemma_pow2_adds, lemma_pow2_pos, pow2};
use vstd::prelude::*;

verus! {

/// The cap on the iterates of one trajectory that the renderer works with.
pub const MAX_ITERS: u64 = 100;

/// The bits of `9.0`: a point has escaped once its squared norm is at least
/// this.
pub const ESCAPE_NORM_SQR: u64 = 0x4022_0000_0000_0000;

/// Whether a point with the squared norm `norm_sqr` has escaped. A squared
/// norm that is not a number counts as not escaped.
pub open spec fn escaped(norm_sqr: Binary64) -> bool {
    (Binary64 { bits: ESCAPE_NORM_SQR }).le(norm_sqr)
}

/// Whether a point with the squared norm `norm_sqr` has escaped.
pub fn has_escaped(norm_sqr: Binary64) -> (r: bool)
    ensures
        r == escaped(norm_sqr),
{
    Binary64::from_bits(ESCAPE_NORM_SQR).at_most(norm_sqr)
}

/// The escape threshold is nine: a number has escaped exactly if it is at
/// least nine.
pub proof fn lemma_escape_threshold(norm_sqr: Binary64)
    ensures
        escaped(norm_sqr) <==> !norm_sqr.is_nan() && norm_sqr.scaled() >= 9 * pow2(
            unit_exponent(),
        ),
{
    let nine = Binary64 { bits: ESCAPE_NORM_SQR };
    lemma2_to64_rest();
    lemma_pow2_adds(49, 1025);
    assert(nine.magnitude() == ESCAPE_NORM_SQR);
    assert(ESCAPE_NORM_SQR as nat / 0x0010_0000_0000_0000 == 1026);
    assert(ESCAPE_NORM_SQR as nat % 0x0010_0000_0000_0000 == 0x2_0000_0000_0000);
    assert(scale(ESCAPE_NORM_SQR as nat) == 0x12_0000_0000_0000 * pow2(1025));
    assert(0x12_0000_0000_0000 * pow2(1025) == 9 * (pow2(49) * pow2(1025))) by (nonlinear_arith)
        requires
            pow2(49) == 0x2_0000_0000_0000,
    ;
}

/// The state of an escape run as contracts see it.
pub struct RunState {
    /// Iterates recorded so far.
    pub taken: nat,
    /// The most iterates the run may record.
    pub cap: nat,
    /// Whether the run has ended.
    pub halted: bool,
}

/// The state of a run that has recorded nothing yet.
pub open spec fn start(cap: nat) -> RunState {
    RunState { taken: 0, cap, halted: false }
}

/// Whether a run in state `s` goes through another iteration when its current
/// point has, or has not, `escaped`.
pub open spec fn admits(s: RunState, escaped: bool) -> bool {
    !s.halted && s.taken < s.cap && !escaped
}

/// The state that follows `s` once the escape test of the current point is
/// known: one more iterate, or the end of the run.
pub open spec fn advance(s: RunState, escaped: bool) -> RunState {
    if admits(s, escaped) {
        RunState { taken: s.taken + 1, cap: s.cap, halted: false }
    } else {
        RunState { taken: s.taken, cap: s.cap, halted: true }
    }
}

/// The state reached from `s` after the escape tests `flags`, in order.
pub open spec fn feed(s: RunState, flags: Seq<bool>) -> RunState
    decreases flags.len(),
{
    if flags.len() == 0 {
        s
    } else {
        advance(feed(s, flags.drop_last()), flags.last())
    }
}

/// How many points at the start of `flags` have not escaped.
pub open spec fn quiet_prefix(flags: Seq<bool>) -> nat
    decreases flags.len(),
{
    if flags.len() == 0 || flags[0] {
        0
    } else {
        1 + quiet_prefix(flags.drop_first())
    }
}

/// The smaller of two numbers.
pub open spec fn least(a: nat, b: nat) -> nat {
    if a <= b {
        a
    } else {
        b
    }
}

/// One escape run: counts the iterates of a trajectory and ends the run at the
/// first point that has escaped, or when the cap is reached.
pub struct EscapeRun {
    taken: u64,
    cap: u64,
    halted: bool,
}

impl View for EscapeRun {
    type V = RunState;

    closed spec fn view(&self) -> RunState {
        RunState { taken: self.taken as nat, cap: self.cap as nat, halted: self.halted }
    }
}

impl EscapeRun {
    #[verifier::type_invariant]
    spec fn within_cap(self) -> bool {
        self.taken <= self.cap
    }

    /// A run that may record up to `cap` iterates.
    pub fn new(cap: u64) -> (run: EscapeRun)
        ensures
            run@ == start(cap as nat),
    {
        EscapeRun { taken: 0, cap, halted: false }
    }

    /// Takes the escape test of the current point. Returns whether the
    /// recurrence is to be applied once more; if so the new iterate counts as
    /// recorded, and if not the run has ended.
    pub fn step(&mut self, escaped: bool) -> (go: bool)
        ensures
            go == admits(old(self)@, escaped),
            final(self)@ == advance(old(self)@, escaped),
    {
        proof {
            use_type_invariant(&*self);
        }
        if !self.halted && self.taken < self.cap && !escaped {
            self.taken = self.taken + 1;
            true
        } else {
            self.halted = true;
            false
        }
    }

    /// The number of iterates recorded so far.
    pub fn len(&self) -> (n: u64)
        ensures
            n == self@.taken,
            n <= self@.cap,
    {
        proof {
            use_type_invariant(self);
        }
        self.taken
    }

    /// The cap the run was made with.
    pub fn cap(&self) -> (n: u64)
        ensures
            n == self@.cap,
    {
        self.cap
    }

    /// Whether the run has ended.
    pub fn is_halted(&self) -> (b: bool)
        ensures
            b == self@.halted,
    {
        self.halted
    }
}

/// The positions of the first and the last iterate of a trajectory of `len`
/// points; an empty trajectory has neither.
pub fn endpoints(len: usize) -> (r: Option<(usize, usize)>)
    ensures
        len == 0 ==> r is None,
        len > 0 ==> r == Some((0usize, (len - 1) as usize)),
{
    if len == 0 {
        None
    } else {
        Some((0, len - 1))
    }
}

/// Whatever the escape tests are, a run never records more than its cap,
/// keeps its cap, and has recorded the quiet points at the start of the tests
/// as far as the cap allows.
pub proof fn lemma_run_length(cap: nat, flags: Seq<bool>)
    ensures
        feed(start(cap), flags).cap == cap,
        feed(start(cap), flags).taken <= cap,
        feed(start(cap), flags).taken == least(quiet_prefix(flags), cap),
        feed(start(cap), flags).halted <==> quiet_prefix(flags) < flags.len() || cap < flags.len(),
    decreases flags.len(),
{
    if flags.len() > 0 {
        lemma_run_length(cap, flags.drop_last());
        lemma_quiet_prefix_extend(flags.drop_last(), flags.last());
        assert(flags.drop_last().push(flags.last()) =~= flags);
    }
}

/// The quiet prefix of a sequence with one more test at its end.
proof fn lemma_quiet_prefix_extend(flags: Seq<bool>, escaped: bool)
    ensures
        quiet_prefix(flags) <= flags.len(),
        quiet_prefix(flags.push(escaped)) == if quiet_prefix(flags) == flags.len() && !escaped {
            flags.len() + 1
        } else {
            quiet_prefix(flags)
        },
    decreases flags.len(),
{
    if flags.len() == 0 {
        assert(flags.push(escaped).drop_first() =~= Seq::<bool>::empty());
        assert(quiet_prefix(Seq::<bool>::empty()) == 0);
    } else {
        lemma_quiet_prefix_extend(flags.drop_first(), escaped);
        assert(flags.push(escaped).drop_first() =~= flags.drop_first().push(escaped));
    }
}

/// A run with room for at least one iterate, whose first point has not
/// escaped, records at least one iterate: its trajectory is not empty.
pub proof fn lemma_run_is_not_empty(cap: nat, flags: Seq<bool>)
    requires
        cap >= 1,
        flags.len() >= 1,
        !flags[0],
    ensures
        feed(start(cap), flags).taken >= 1,
{
    lemma_run_length(cap, flags);
}

/// The origin, where every trajectory starts, has not escaped: the first
/// escape test of a run is never the one that ends it.
pub proof fn lemma_origin_has_not_escaped()
    ensures
        !escaped(Binary64 { bits: 0 }),
{
    lemma_escape_threshold(Binary64 { bits: 0 });
    lemma_pow2_pos(unit_exponent());
}

/// A run that has ended stays as it is, whatever tests follow.
pub proof fn lemma_halted_is_final(s: RunState, flags: Seq<bool>)
    requires
        s.halted,
    ensures
        feed(s, flags) == s,
    decreases flags.len(),
{
    if flags.len() > 0 {
        lemma_halted_is_final(s, flags.drop_last());
    }
}

} // verus!
