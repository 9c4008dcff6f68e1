use vstd::prelude::*;

verus! {

/// What the guard decided about one output frame of the echo canceller.
#[derive(Debug, Clone, Copy, PartialEq, Eq, Structural)]
pub enum GuardVerdict {
    /// The divergence count reached its threshold: the caller restores the
    /// echo canceller's initial state and the post-limiter's initial state.
    Reset,
    /// Cooldown after a reset: the caller replaces the output frame with the
    /// microphone frame passed through the post-limiter.
    Bypass,
    /// This frame looked diverged; the count went up by one.
    Diverged,
    /// Nothing to do: the frame is forwarded as it is.
    Healthy,
}

impl GuardVerdict {
    /// Whether the caller must replace the live echo-canceller state with
    /// its initial snapshot.
    pub open spec fn resets_filter_spec(self) -> bool {
        self == GuardVerdict::Reset || self == GuardVerdict::Diverged
    }

    pub fn resets_filter(&self) -> (r: bool)
        ensures
            r == self.resets_filter_spec(),
    {
        match self {
            GuardVerdict::Reset => true,
            GuardVerdict::Diverged => true,
            GuardVerdict::Bypass => false,
            GuardVerdict::Healthy => false,
        }
    }
}

/// The guard's counters as mathematical values.
pub struct GuardState {
    /// Frames judged diverged since the last reset (healthy frames do not
    /// clear it).
    pub suspects: nat,
    /// Divergent frames that trigger a reset.
    pub threshold: nat,
    /// Frames of bypass still to run.
    pub cooldown: nat,
    /// Frames of bypass that follow each reset.
    pub limit: nat,
}

impl GuardState {
    pub open spec fn wf(self) -> bool {
        self.suspects <= self.threshold && self.cooldown <= self.limit
    }

    /// A guard that has seen nothing yet.
    pub open spec fn fresh(threshold: nat, limit: nat) -> GuardState {
        GuardState { suspects: 0, threshold, cooldown: 0, limit }
    }
}

/// One frame of the guard: the next state and the verdict, given whether
/// the echo canceller's output frame looked diverged.
pub open spec fn examine_spec(s: GuardState, diverged: bool) -> (GuardState, GuardVerdict) {
    if s.suspects == s.threshold {
        (GuardState { suspects: 0, cooldown: s.limit, ..s }, GuardVerdict::Reset)
    } else if s.cooldown > 0 {
        (GuardState { cooldown: (s.cooldown - 1) as nat, ..s }, GuardVerdict::Bypass)
    } else if diverged {
        (GuardState { suspects: s.suspects + 1, ..s }, GuardVerdict::Diverged)
    } else {
        (s, GuardVerdict::Healthy)
    }
}

/// `n` frames of the guard under sustained divergence: the final state and
/// the verdicts in order.
pub open spec fn run_diverged(s: GuardState, n: nat) -> (GuardState, Seq<GuardVerdict>)
    decreases n,
{
    if n == 0 {
        (s, Seq::empty())
    } else {
        let (s1, v) = examine_spec(s, true);
        let (s2, vs) = run_diverged(s1, (n - 1) as nat);
        (s2, seq![v] + vs)
    }
}

/// Divergence detector for the echo canceller's output.
///
/// It counts diverged frames since its last reset; when the count reaches the
/// threshold it asks for a reset and then bypasses the canceller for a
/// fixed number of frames.
pub struct AecGuard {
    assume_frame: usize,
    trigger_threshold: usize,
    cooldown_remaining: usize,
    cooldown_limit_frame: usize,
}

impl View for AecGuard {
    type V = GuardState;

    closed spec fn view(&self) -> GuardState {
        GuardState {
            suspects: self.assume_frame as nat,
            threshold: self.trigger_threshold as nat,
            cooldown: self.cooldown_remaining as nat,
            limit: self.cooldown_limit_frame as nat,
        }
    }
}

impl AecGuard {
    pub fn new(trigger_threshold: usize, cooldown_limit_frame: usize) -> (r: Self)
        ensures
            r@ == GuardState::fresh(trigger_threshold as nat, cooldown_limit_frame as nat),
            r@.wf(),
    {
        AecGuard { assume_frame: 0, trigger_threshold, cooldown_remaining: 0, cooldown_limit_frame }
    }

    /// Judges one output frame; `diverged` is the outcome of the energy test
    /// on that frame (a non-finite sample, or output energy above 1.6 times a
    /// non-negligible microphone energy).
    pub fn examine_and_protect(&mut self, diverged: bool) -> (v: GuardVerdict)
        requires
            old(self)@.wf(),
        ensures
            (final(self)@, v) == examine_spec(old(self)@, diverged),
            final(self)@.wf(),
    {
        if self.assume_frame == self.trigger_threshold {
            self.assume_frame = 0;
            self.cooldown_remaining = self.cooldown_limit_frame;
            return GuardVerdict::Reset;
        }
        if self.cooldown_remaining > 0 {
            self.cooldown_remaining = self.cooldown_remaining - 1;
            return GuardVerdict::Bypass;
        }
        if diverged {
            self.assume_frame = self.assume_frame + 1;
            return GuardVerdict::Diverged;
        }
        GuardVerdict::Healthy
    }

    /// Diverged frames counted since the last reset.
    pub fn assume_count(&self) -> (r: usize)
        ensures
            r as nat == self@.suspects,
    {
        self.assume_frame
    }

    /// Bypass frames still to run.
    pub fn cooldown_remaining(&self) -> (r: usize)
        ensures
            r as nat == self@.cooldown,
    {
        self.cooldown_remaining
    }
}

/// Running `a` frames and then `b` more is running `a + b` frames.
pub proof fn lemma_run_split(s: GuardState, a: nat, b: nat)
    ensures
        run_diverged(s, a + b) == ({
            let (s1, v1) = run_diverged(s, a);
            let (s2, v2) = run_diverged(s1, b);
            (s2, v1 + v2)
        }),
    decreases a,
{
    if a == 0 {
        assert(seq![] + run_diverged(s, b).1 =~= run_diverged(s, b).1);
    } else {
        let (s1, v) = examine_spec(s, true);
        lemma_run_split(s1, (a - 1) as nat, b);
        assert((a + b - 1) as nat == (a - 1) as nat + b);
        let (t1, w1) = run_diverged(s1, (a - 1) as nat);
        let (t2, w2) = run_diverged(t1, b);
        assert(seq![v] + (w1 + w2) =~= (seq![v] + w1) + w2);
    }
}

/// Under sustained divergence, a guard outside cooldown counts up to the
/// threshold, one verdict `Diverged` per frame.
pub proof fn lemma_count_up(s: GuardState, k: nat)
    requires
        s.wf(),
        s.cooldown == 0,
        s.suspects + k == s.threshold,
    ensures
        run_diverged(s, k) == (
            GuardState { suspects: s.threshold, ..s },
            Seq::new(k, |i: int| GuardVerdict::Diverged),
        ),
    decreases k,
{
    if k == 0 {
        assert(GuardState { suspects: s.threshold, ..s } == s);
        assert(Seq::new(0, |i: int| GuardVerdict::Diverged) =~= Seq::<GuardVerdict>::empty());
    } else {
        let s1 = GuardState { suspects: s.suspects + 1, ..s };
        lemma_count_up(s1, (k - 1) as nat);
        assert(seq![GuardVerdict::Diverged] + Seq::new((k - 1) as nat, |i: int| GuardVerdict::Diverged)
            =~= Seq::new(k, |i: int| GuardVerdict::Diverged));
    }
}

/// During cooldown every frame is bypassed, whatever the divergence test
/// says, until the cooldown runs out.
pub proof fn lemma_cool_down(s: GuardState, c: nat)
    requires
        s.suspects != s.threshold,
        s.cooldown == c,
    ensures
        run_diverged(s, c) == (
            GuardState { cooldown: 0, ..s },
            Seq::new(c, |i: int| GuardVerdict::Bypass),
        ),
    decreases c,
{
    if c == 0 {
        assert(GuardState { cooldown: 0, ..s } == s);
        assert(Seq::new(0, |i: int| GuardVerdict::Bypass) =~= Seq::<GuardVerdict>::empty());
    } else {
        let s1 = GuardState { cooldown: (c - 1) as nat, ..s };
        lemma_cool_down(s1, (c - 1) as nat);
        assert(seq![GuardVerdict::Bypass] + Seq::new((c - 1) as nat, |i: int| GuardVerdict::Bypass)
            =~= Seq::new(c, |i: int| GuardVerdict::Bypass));
    }
}

/// Under sustained divergence a fresh guard with a positive threshold `t`
/// and a cooldown of `c` frames goes through one full cycle in `t + 1 + c`
/// frames: `t` frames judged diverged, exactly one reset, then `c` frames
/// of bypass, after which it is fresh again.
pub proof fn lemma_sustained_divergence_cycle(t: nat, c: nat)
    requires
        t > 0,
    ensures
        run_diverged(GuardState::fresh(t, c), t + 1 + c) == (
            GuardState::fresh(t, c),
            Seq::new(t, |i: int| GuardVerdict::Diverged) + seq![GuardVerdict::Reset]
                + Seq::new(c, |i: int| GuardVerdict::Bypass),
        ),
{
    let s0 = GuardState::fresh(t, c);
    let s1 = GuardState { suspects: t, ..s0 };
    let s2 = GuardState { suspects: 0, cooldown: c, ..s0 };
    lemma_count_up(s0, t);
    lemma_cool_down(s2, c);
    assert(run_diverged(s1, 1) == (s2, seq![GuardVerdict::Reset])) by {
        assert(examine_spec(s1, true) == (s2, GuardVerdict::Reset));
        assert(run_diverged(s2, 0) == (s2, Seq::<GuardVerdict>::empty()));
        assert(seq![GuardVerdict::Reset] + Seq::<GuardVerdict>::empty() =~= seq![GuardVerdict::Reset]);
    }
    lemma_run_split(s0, t, 1);
    lemma_run_split(s0, t + 1, c);
    assert(GuardState { cooldown: 0, ..s2 } == s0);
}

/// From any well-formed state outside cooldown, sustained divergence
/// brings the count to the threshold within `threshold` frames.
pub proof fn lemma_trigger_within_threshold(s: GuardState)
    requires
        s.wf(),
        s.cooldown == 0,
    ensures
        ({
            let k = (s.threshold - s.suspects) as nat;
            &&& k <= s.threshold
            &&& run_diverged(s, k).0.suspects == s.threshold
            &&& examine_spec(run_diverged(s, k).0, true).1 == GuardVerdict::Reset
        }),
{
    lemma_count_up(s, (s.threshold - s.suspects) as nat);
}

} // verus!
