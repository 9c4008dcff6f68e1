use vstd::prelude::*;
use vstd::arithmetic::div_mod::{lemma_fundamental_div_mod, lemma_mod_multiples_vanish};
use vstd::arithmetic::mul::lemma_mul_inequality;

use crate::aec_guard::{examine_spec, GuardState};
use crate::constant::{AEC_FRAME_SIZE, FRAME_SIZE};

verus! {

/// The smaller of two counts.
pub open spec fn least(a: nat, b: nat) -> nat {
    if a <= b {
        a
    } else {
        b
    }
}

/// Whole frames of `size` samples that a stage can move when `avail`
/// samples wait on its input and `room` samples are free on its output.
pub open spec fn fit(avail: nat, room: nat, size: nat) -> nat {
    least(avail / size, room / size)
}

/// What the graph's four outside rings offer at the start of a sweep.
#[derive(Debug, Clone, Copy, PartialEq, Eq, Structural)]
pub struct ExternalLevels {
    /// Samples waiting in the microphone ring.
    pub mic_in: usize,
    /// Samples waiting in the far-end (reference) ring.
    pub ref_in: usize,
    /// Free samples in the ring towards the encoder.
    pub mic_out_room: usize,
    /// Free samples in the ring towards the speaker.
    pub ref_out_room: usize,
}

/// How many frames each stage runs in one sweep, in the order the stages run.
#[derive(Debug, Clone, Copy, PartialEq, Eq, Structural)]
pub struct SweepPlan {
    /// Frames high-pass filtered from the microphone ring.
    pub hpf_mic_frames: usize,
    /// Frames of far-end signal limited.
    pub limit_frames: usize,
    /// Limited frames copied both to the speaker ring and to the echo path.
    pub dispatch_frames: usize,
    /// Frames of far-end signal high-pass filtered for the echo canceller.
    pub hpf_ref_frames: usize,
    /// Echo-canceller blocks processed.
    pub aec_blocks: usize,
    /// Of those blocks, how many (the first ones) have a far-end block; the
    /// rest run against silence.
    pub aec_ref_blocks: usize,
    /// Frames through the post-filter and the noise gate.
    pub nlp_frames: usize,
    /// Denoiser frames written to the encoder ring.
    pub denoise_frames: usize,
}

/// Samples held in each of the graph's internal rings.
#[derive(Debug, Clone, Copy, PartialEq, Eq, Structural)]
pub struct RingLevels {
    pub ref_limit: usize,
    pub dispatch: usize,
    pub hpf_mic: usize,
    pub hpf_ref: usize,
    pub aec: usize,
    pub nlp: usize,
}

/// The scheduler as mathematical values: frame sizes, capacities and the
/// fill level of each internal ring.
pub struct SchedulerState {
    /// Codec frame.
    pub frame: nat,
    /// Echo-canceller block.
    pub block: nat,
    /// Denoiser frame.
    pub denoise: nat,
    /// Capacity of the rings between frame-sized stages.
    pub small_cap: nat,
    /// Capacity of the rings next to the echo canceller and after it.
    pub big_cap: nat,
    pub ref_limit: nat,
    pub dispatch: nat,
    pub hpf_mic: nat,
    pub hpf_ref: nat,
    pub aec: nat,
    pub nlp: nat,
}

impl SchedulerState {
    /// Sizes are positive, a codec frame splits into whole denoiser frames,
    /// each capacity is four of the largest frame it carries, no ring holds
    /// more than its capacity, and the rings between stages of equal frame
    /// size hold whole frames.
    pub open spec fn wf(self) -> bool {
        &&& self.frame > 0
        &&& self.block > 0
        &&& self.denoise > 0
        &&& self.frame % self.denoise == 0
        &&& self.small_cap == 4 * self.frame
        &&& self.big_cap == 4 * (if self.frame >= self.block { self.frame } else { self.block })
        &&& self.big_cap <= usize::MAX
        &&& self.ref_limit <= self.small_cap
        &&& self.dispatch <= self.small_cap
        &&& self.hpf_mic <= self.big_cap
        &&& self.hpf_ref <= self.big_cap
        &&& self.aec <= self.big_cap
        &&& self.nlp <= self.big_cap
        &&& self.ref_limit % self.frame == 0
        &&& self.dispatch % self.frame == 0
        &&& self.nlp % self.denoise == 0
    }

    /// A scheduler whose internal rings are all empty.
    pub open spec fn empty(frame: nat, block: nat, denoise: nat) -> SchedulerState {
        let big = if frame >= block { frame } else { block };
        SchedulerState {
            frame,
            block,
            denoise,
            small_cap: 4 * frame,
            big_cap: 4 * big,
            ref_limit: 0,
            dispatch: 0,
            hpf_mic: 0,
            hpf_ref: 0,
            aec: 0,
            nlp: 0,
        }
    }
}

/// One sweep over the graph: each stage, in order, runs as many whole frames
/// as its input holds and its output has room for, seeing what the stages
/// before it left. Returns the internal rings afterwards and the plan.
pub open spec fn sweep_spec(s: SchedulerState, e: ExternalLevels) -> (SchedulerState, SweepPlan) {
    let f = s.frame;
    let b = s.block;
    let d = s.denoise;
    // microphone high-pass: mic_in -> hpf_mic
    let n1 = fit(e.mic_in as nat, (s.big_cap - s.hpf_mic) as nat, f);
    let hpf_mic1 = s.hpf_mic + n1 * f;
    // far-end limiter: ref_in -> ref_limit
    let n2 = fit(e.ref_in as nat, (s.small_cap - s.ref_limit) as nat, f);
    let ref_limit1 = s.ref_limit + n2 * f;
    // dispatch: ref_limit -> speaker ring and dispatch
    let n3 = least(fit(ref_limit1, e.ref_out_room as nat, f), (s.small_cap - s.dispatch) as nat / f);
    let ref_limit2 = ref_limit1 - n3 * f;
    let dispatch1 = s.dispatch + n3 * f;
    // far-end high-pass: dispatch -> hpf_ref
    let n4 = fit(dispatch1, (s.big_cap - s.hpf_ref) as nat, f);
    let dispatch2 = dispatch1 - n4 * f;
    let hpf_ref1 = s.hpf_ref + n4 * f;
    // echo canceller: hpf_mic (and hpf_ref while it lasts) -> aec
    let n5 = fit(hpf_mic1, (s.big_cap - s.aec) as nat, b);
    let r5 = least(n5, hpf_ref1 / b);
    let hpf_mic2 = hpf_mic1 - n5 * b;
    let hpf_ref2 = hpf_ref1 - r5 * b;
    let aec1 = s.aec + n5 * b;
    // post-filter and gate: aec -> nlp
    let n6 = fit(aec1, (s.big_cap - s.nlp) as nat, f);
    let aec2 = aec1 - n6 * f;
    let nlp1 = s.nlp + n6 * f;
    // denoiser: nlp -> encoder ring
    let n7 = fit(nlp1, e.mic_out_room as nat, d);
    let nlp2 = nlp1 - n7 * d;
    (
        SchedulerState {
            ref_limit: ref_limit2 as nat,
            dispatch: dispatch2 as nat,
            hpf_mic: hpf_mic2 as nat,
            hpf_ref: hpf_ref2 as nat,
            aec: aec2 as nat,
            nlp: nlp2 as nat,
            ..s
        },
        SweepPlan {
            hpf_mic_frames: n1 as usize,
            limit_frames: n2 as usize,
            dispatch_frames: n3 as usize,
            hpf_ref_frames: n4 as usize,
            aec_blocks: n5 as usize,
            aec_ref_blocks: r5 as usize,
            nlp_frames: n6 as usize,
            denoise_frames: n7 as usize,
        },
    )
}

proof fn lemma_fit(avail: nat, room: nat, size: nat)
    requires
        size > 0,
    ensures
        fit(avail, room, size) * size <= avail,
        fit(avail, room, size) * size <= room,
{
    lemma_fundamental_div_mod(avail as int, size as int);
    lemma_fundamental_div_mod(room as int, size as int);
    let n = fit(avail, room, size);
    lemma_mul_inequality(n as int, (avail / size) as int, size as int);
    lemma_mul_inequality(n as int, (room / size) as int, size as int);
    assert((avail / size) * size == size * (avail / size)) by (nonlinear_arith);
    assert((room / size) * size == size * (room / size)) by (nonlinear_arith);
}

proof fn lemma_fewer(n: nat, m: nat, size: nat)
    requires
        n <= m,
    ensures
        n * size <= m * size,
{
    lemma_mul_inequality(n as int, m as int, size as int);
}

/// Adding or taking away whole multiples of `m` keeps a multiple of `m`.
proof fn lemma_shift_multiple(x: int, k: int, m: int)
    requires
        m > 0,
        x % m == 0,
    ensures
        (x + k * m) % m == 0,
        (x - k * m) % m == 0,
{
    lemma_mod_multiples_vanish(k, x, m);
    lemma_mod_multiples_vanish(-k, x, m);
    assert(m * k + x == x + k * m) by (nonlinear_arith);
    assert(m * (-k) + x == x - k * m) by (nonlinear_arith);
}

/// A sweep keeps the scheduler well formed: no internal ring overflows and
/// the rings between stages of equal frame size keep holding whole frames.
pub proof fn lemma_sweep_preserves_wf(s: SchedulerState, e: ExternalLevels)
    requires
        s.wf(),
    ensures
        sweep_spec(s, e).0.wf(),
{
    let f = s.frame;
    let b = s.block;
    let d = s.denoise;
    let n1 = fit(e.mic_in as nat, (s.big_cap - s.hpf_mic) as nat, f);
    lemma_fit(e.mic_in as nat, (s.big_cap - s.hpf_mic) as nat, f);
    let hpf_mic1 = s.hpf_mic + n1 * f;
    let n2 = fit(e.ref_in as nat, (s.small_cap - s.ref_limit) as nat, f);
    lemma_fit(e.ref_in as nat, (s.small_cap - s.ref_limit) as nat, f);
    lemma_shift_multiple(s.ref_limit as int, n2 as int, f as int);
    let ref_limit1 = s.ref_limit + n2 * f;
    let n3a = fit(ref_limit1, e.ref_out_room as nat, f);
    let n3b = (s.small_cap - s.dispatch) as nat / f;
    let n3 = least(n3a, n3b);
    lemma_fit(ref_limit1, e.ref_out_room as nat, f);
    lemma_fewer(n3, n3a, f);
    lemma_fewer(n3, n3b, f);
    lemma_fundamental_div_mod((s.small_cap - s.dispatch) as int, f as int);
    assert(n3b * f == f * n3b) by (nonlinear_arith);
    lemma_shift_multiple(ref_limit1 as int, n3 as int, f as int);
    lemma_shift_multiple(s.dispatch as int, n3 as int, f as int);
    let dispatch1 = s.dispatch + n3 * f;
    let n4 = fit(dispatch1, (s.big_cap - s.hpf_ref) as nat, f);
    lemma_fit(dispatch1, (s.big_cap - s.hpf_ref) as nat, f);
    lemma_shift_multiple(dispatch1 as int, n4 as int, f as int);
    let hpf_ref1 = s.hpf_ref + n4 * f;
    let n5 = fit(hpf_mic1, (s.big_cap - s.aec) as nat, b);
    lemma_fit(hpf_mic1, (s.big_cap - s.aec) as nat, b);
    let r5 = least(n5, hpf_ref1 / b);
    lemma_fewer(r5, hpf_ref1 / b, b);
    lemma_fundamental_div_mod(hpf_ref1 as int, b as int);
    assert((hpf_ref1 / b) * b == b * (hpf_ref1 / b)) by (nonlinear_arith);
    let aec1 = s.aec + n5 * b;
    let n6 = fit(aec1, (s.big_cap - s.nlp) as nat, f);
    lemma_fit(aec1, (s.big_cap - s.nlp) as nat, f);
    let q = (f / d) as int;
    lemma_fundamental_div_mod(f as int, d as int);
    assert(n6 * f == (n6 * q) * d) by (nonlinear_arith)
        requires
            f == d * q + 0,
    ;
    lemma_shift_multiple(s.nlp as int, n6 * q, d as int);
    let nlp1 = s.nlp + n6 * f;
    let n7 = fit(nlp1, e.mic_out_room as nat, d);
    lemma_fit(nlp1, e.mic_out_room as nat, d);
    lemma_shift_multiple(nlp1 as int, n7 as int, d as int);
}

/// No sample is lost or made up inside the graph in a sweep: on the
/// microphone path, what the rings held plus what was taken from the
/// microphone ring is what they hold now plus what went to the encoder; on
/// the far-end path, the same holds up to the speaker ring, and on the echo
/// path up to the blocks the echo canceller used.
pub proof fn lemma_sweep_conserves_samples(s: SchedulerState, e: ExternalLevels)
    requires
        s.wf(),
    ensures
        ({
            let (t, p) = sweep_spec(s, e);
            let f = s.frame;
            let b = s.block;
            let d = s.denoise;
            &&& t.hpf_mic + t.aec + t.nlp + p.denoise_frames * d == s.hpf_mic + s.aec + s.nlp
                + p.hpf_mic_frames * f
            &&& t.ref_limit + p.dispatch_frames * f == s.ref_limit + p.limit_frames * f
            &&& t.dispatch + t.hpf_ref + p.aec_ref_blocks * b == s.dispatch + s.hpf_ref
                + p.dispatch_frames * f
        }),
{
    let f = s.frame;
    let b = s.block;
    let d = s.denoise;
    lemma_sweep_preserves_wf(s, e);
    let n1 = fit(e.mic_in as nat, (s.big_cap - s.hpf_mic) as nat, f);
    lemma_fit(e.mic_in as nat, (s.big_cap - s.hpf_mic) as nat, f);
    let hpf_mic1 = s.hpf_mic + n1 * f;
    let n2 = fit(e.ref_in as nat, (s.small_cap - s.ref_limit) as nat, f);
    lemma_fit(e.ref_in as nat, (s.small_cap - s.ref_limit) as nat, f);
    let ref_limit1 = s.ref_limit + n2 * f;
    let n3a = fit(ref_limit1, e.ref_out_room as nat, f);
    let n3 = least(n3a, (s.small_cap - s.dispatch) as nat / f);
    lemma_fit(ref_limit1, e.ref_out_room as nat, f);
    lemma_fewer(n3, n3a, f);
    let dispatch1 = s.dispatch + n3 * f;
    let n4 = fit(dispatch1, (s.big_cap - s.hpf_ref) as nat, f);
    lemma_fit(dispatch1, (s.big_cap - s.hpf_ref) as nat, f);
    let hpf_ref1 = s.hpf_ref + n4 * f;
    let n5 = fit(hpf_mic1, (s.big_cap - s.aec) as nat, b);
    lemma_fit(hpf_mic1, (s.big_cap - s.aec) as nat, b);
    let r5 = least(n5, hpf_ref1 / b);
    lemma_fewer(r5, hpf_ref1 / b, b);
    lemma_fundamental_div_mod(hpf_ref1 as int, b as int);
    assert((hpf_ref1 / b) * b == b * (hpf_ref1 / b)) by (nonlinear_arith);
    let aec1 = s.aec + n5 * b;
    let n6 = fit(aec1, (s.big_cap - s.nlp) as nat, f);
    lemma_fit(aec1, (s.big_cap - s.nlp) as nat, f);
    let nlp1 = s.nlp + n6 * f;
    let n7 = fit(nlp1, e.mic_out_room as nat, d);
    lemma_fit(nlp1, e.mic_out_room as nat, d);
}

/// When a stage stops, its input holds less than one of its frames or its
/// output has room for less than one.
proof fn lemma_fit_exhausts(avail: nat, room: nat, size: nat)
    requires
        size > 0,
    ensures
        avail - fit(avail, room, size) * size < size || room - fit(avail, room, size) * size < size,
{
    lemma_fundamental_div_mod(avail as int, size as int);
    lemma_fundamental_div_mod(room as int, size as int);
    assert((avail / size) * size == size * (avail / size)) by (nonlinear_arith);
    assert((room / size) * size == size * (room / size)) by (nonlinear_arith);
}

/// Every stage of a sweep runs while it has a whole frame of input and room
/// for a whole frame of output, and stops only when one of the two runs
/// short (for the dispatch, when the limiter's ring, the speaker ring or
/// the echo path runs short).
pub proof fn lemma_sweep_runs_stages_to_exhaustion(s: SchedulerState, e: ExternalLevels)
    requires
        s.wf(),
    ensures
        ({
            let (t, p) = sweep_spec(s, e);
            let f = s.frame;
            let b = s.block;
            let d = s.denoise;
            &&& e.mic_in - p.hpf_mic_frames * f < f
                || s.big_cap - s.hpf_mic - p.hpf_mic_frames * f < f
            &&& e.ref_in - p.limit_frames * f < f
                || s.small_cap - s.ref_limit - p.limit_frames * f < f
            &&& t.ref_limit < f || e.ref_out_room - p.dispatch_frames * f < f
                || s.small_cap - s.dispatch - p.dispatch_frames * f < f
            &&& t.dispatch < f || s.big_cap - s.hpf_ref - p.hpf_ref_frames * f < f
            &&& t.hpf_mic < b || s.big_cap - s.aec - p.aec_blocks * b < b
            &&& t.aec < f || s.big_cap - s.nlp - p.nlp_frames * f < f
            &&& t.nlp < d || e.mic_out_room - p.denoise_frames * d < d
        }),
{
    let f = s.frame;
    let b = s.block;
    let d = s.denoise;
    lemma_sweep_conserves_samples(s, e);
    let n1 = fit(e.mic_in as nat, (s.big_cap - s.hpf_mic) as nat, f);
    lemma_fit_exhausts(e.mic_in as nat, (s.big_cap - s.hpf_mic) as nat, f);
    lemma_fit(e.mic_in as nat, (s.big_cap - s.hpf_mic) as nat, f);
    let n2 = fit(e.ref_in as nat, (s.small_cap - s.ref_limit) as nat, f);
    lemma_fit_exhausts(e.ref_in as nat, (s.small_cap - s.ref_limit) as nat, f);
    lemma_fit(e.ref_in as nat, (s.small_cap - s.ref_limit) as nat, f);
    let ref_limit1 = s.ref_limit + n2 * f;
    let n3a = fit(ref_limit1, e.ref_out_room as nat, f);
    let n3b = (s.small_cap - s.dispatch) as nat / f;
    let n3 = least(n3a, n3b);
    lemma_fit_exhausts(ref_limit1, e.ref_out_room as nat, f);
    lemma_fit(ref_limit1, e.ref_out_room as nat, f);
    lemma_fundamental_div_mod((s.small_cap - s.dispatch) as int, f as int);
    assert(n3b * f == f * n3b) by (nonlinear_arith);
    lemma_fewer(n3, n3a, f);
    lemma_fewer(n3, n3b, f);
    let dispatch1 = s.dispatch + n3 * f;
    lemma_fit_exhausts(dispatch1, (s.big_cap - s.hpf_ref) as nat, f);
    lemma_fit(dispatch1, (s.big_cap - s.hpf_ref) as nat, f);
    let hpf_mic1 = s.hpf_mic + n1 * f;
    lemma_fit_exhausts(hpf_mic1, (s.big_cap - s.aec) as nat, b);
    lemma_fit(hpf_mic1, (s.big_cap - s.aec) as nat, b);
    let n5 = fit(hpf_mic1, (s.big_cap - s.aec) as nat, b);
    let aec1 = s.aec + n5 * b;
    lemma_fit_exhausts(aec1, (s.big_cap - s.nlp) as nat, f);
    lemma_fit(aec1, (s.big_cap - s.nlp) as nat, f);
    let n6 = fit(aec1, (s.big_cap - s.nlp) as nat, f);
    let nlp1 = s.nlp + n6 * f;
    lemma_fit_exhausts(nlp1, e.mic_out_room as nat, d);
    lemma_fit(nlp1, e.mic_out_room as nat, d);
}

/// A run of sweeps, one per entry of `es`: the internal rings afterwards
/// and the plan of each sweep, in order.
pub open spec fn run_sweeps(s: SchedulerState, es: Seq<ExternalLevels>) -> (SchedulerState, Seq<SweepPlan>)
    decreases es.len(),
{
    if es.len() == 0 {
        (s, Seq::empty())
    } else {
        let (s1, p) = sweep_spec(s, es[0]);
        let (s2, ps) = run_sweeps(s1, es.drop_first());
        (s2, seq![p] + ps)
    }
}

/// After any number of sweeps the frame sizes and capacities are unchanged,
/// no internal ring has overflowed, the limiter's ring and the dispatch
/// ring hold whole codec frames, and the ring before the denoiser holds
/// whole denoiser frames.
pub proof fn lemma_frame_boundary(s: SchedulerState, es: Seq<ExternalLevels>)
    requires
        s.wf(),
    ensures
        ({
            let r = run_sweeps(s, es).0;
            &&& r.wf()
            &&& r.frame == s.frame
            &&& r.block == s.block
            &&& r.denoise == s.denoise
            &&& r.ref_limit % r.frame == 0
            &&& r.dispatch % r.frame == 0
            &&& r.nlp % r.denoise == 0
        }),
    decreases es.len(),
{
    if es.len() > 0 {
        lemma_sweep_preserves_wf(s, es[0]);
        lemma_frame_boundary(sweep_spec(s, es[0]).0, es.drop_first());
    }
}

/// `k` frames of a size that is a multiple of `g` keep a multiple of `g`.
proof fn lemma_shift_by_frames(x: int, k: int, size: int, g: int)
    requires
        g > 0,
        x % g == 0,
        size % g == 0,
    ensures
        (x + k * size) % g == 0,
        (x - k * size) % g == 0,
{
    let q = size / g;
    lemma_fundamental_div_mod(size, g);
    assert(k * size == (k * q) * g) by (nonlinear_arith)
        requires
            size == g * q + 0,
    ;
    lemma_shift_multiple(x, k * q, g);
}

/// The rings on either side of the echo canceller are filled and drained
/// in frames of different sizes, so they need not hold whole frames of
/// either. What holds instead: when `g` divides both the codec frame and
/// the echo-canceller block, these rings always hold a multiple of `g`
/// samples, one sweep after another.
pub proof fn lemma_common_divisor_boundary(s: SchedulerState, es: Seq<ExternalLevels>, g: nat)
    requires
        s.wf(),
        g > 0,
        s.frame % g == 0,
        s.block % g == 0,
        s.hpf_mic % g == 0,
        s.hpf_ref % g == 0,
        s.aec % g == 0,
    ensures
        ({
            let r = run_sweeps(s, es).0;
            &&& r.hpf_mic % g == 0
            &&& r.hpf_ref % g == 0
            &&& r.aec % g == 0
        }),
    decreases es.len(),
{
    if es.len() > 0 {
        let e = es[0];
        let f = s.frame;
        let b = s.block;
        let n1 = fit(e.mic_in as nat, (s.big_cap - s.hpf_mic) as nat, f);
        lemma_fit(e.mic_in as nat, (s.big_cap - s.hpf_mic) as nat, f);
        let hpf_mic1 = s.hpf_mic + n1 * f;
        lemma_shift_by_frames(s.hpf_mic as int, n1 as int, f as int, g as int);
        let p = sweep_spec(s, e).1;
        let n4 = p.hpf_ref_frames as nat;
        lemma_sweep_preserves_wf(s, e);
        let hpf_ref1 = s.hpf_ref + n4 * f;
        lemma_shift_by_frames(s.hpf_ref as int, n4 as int, f as int, g as int);
        let n5 = fit(hpf_mic1, (s.big_cap - s.aec) as nat, b);
        lemma_fit(hpf_mic1, (s.big_cap - s.aec) as nat, b);
        let r5 = least(n5, hpf_ref1 / b);
        lemma_fewer(r5, hpf_ref1 / b, b);
        lemma_fundamental_div_mod(hpf_ref1 as int, b as int);
        assert((hpf_ref1 / b) * b == b * (hpf_ref1 / b)) by (nonlinear_arith);
        lemma_shift_by_frames(hpf_mic1 as int, n5 as int, b as int, g as int);
        lemma_shift_by_frames(hpf_ref1 as int, r5 as int, b as int, g as int);
        let aec1 = s.aec + n5 * b;
        lemma_shift_by_frames(s.aec as int, n5 as int, b as int, g as int);
        let n6 = fit(aec1, (s.big_cap - s.nlp) as nat, f);
        lemma_fit(aec1, (s.big_cap - s.nlp) as nat, f);
        lemma_shift_by_frames(aec1 as int, n6 as int, f as int, g as int);
        lemma_common_divisor_boundary(sweep_spec(s, e).0, es.drop_first(), g);
    }
}

/// Two schedulers in the same state that see the same ring levels, sweep
/// after sweep or call after call, plan the same sweeps and end in the same state; two guards in
/// the same state that see the same divergence outcomes give the same
/// verdicts and end in the same state.
pub proof fn lemma_deterministic(
    s1: SchedulerState,
    s2: SchedulerState,
    es: Seq<ExternalLevels>,
    g1: GuardState,
    g2: GuardState,
    diverged: bool,
    e: ExternalLevels,
    n: nat,
)
    requires
        s1 == s2,
        g1 == g2,
    ensures
        run_sweeps(s1, es) == run_sweeps(s2, es),
        sweeps_spec(s1, e, n) == sweeps_spec(s2, e, n),
        examine_spec(g1, diverged) == examine_spec(g2, diverged),
{
}

/// A sweep in which no stage ran.
pub open spec fn sweep_is_empty(p: SweepPlan) -> bool {
    &&& p.hpf_mic_frames == 0
    &&& p.limit_frames == 0
    &&& p.dispatch_frames == 0
    &&& p.hpf_ref_frames == 0
    &&& p.aec_blocks == 0
    &&& p.aec_ref_blocks == 0
    &&& p.nlp_frames == 0
    &&& p.denoise_frames == 0
}

/// The outside rings as the graph sees them after a sweep: less input by
/// what the sweep took, less room by what it gave.
pub open spec fn levels_after(s: SchedulerState, e: ExternalLevels, p: SweepPlan) -> ExternalLevels {
    ExternalLevels {
        mic_in: (e.mic_in - p.hpf_mic_frames * s.frame) as usize,
        ref_in: (e.ref_in - p.limit_frames * s.frame) as usize,
        mic_out_room: (e.mic_out_room - p.denoise_frames * s.denoise) as usize,
        ref_out_room: (e.ref_out_room - p.dispatch_frames * s.frame) as usize,
    }
}

/// No stage can run: each has less than one of its frames of input or room
/// for less than one of its frames of output. The dispatch needs a frame in
/// the limiter's ring and room for it both in the speaker ring and on the
/// echo path.
pub open spec fn stalled(s: SchedulerState, e: ExternalLevels) -> bool {
    let f = s.frame;
    let b = s.block;
    let d = s.denoise;
    &&& e.mic_in < f || s.big_cap - s.hpf_mic < f
    &&& e.ref_in < f || s.small_cap - s.ref_limit < f
    &&& s.ref_limit < f || e.ref_out_room < f || s.small_cap - s.dispatch < f
    &&& s.dispatch < f || s.big_cap - s.hpf_ref < f
    &&& s.hpf_mic < b || s.big_cap - s.aec < b
    &&& s.aec < f || s.big_cap - s.nlp < f
    &&& s.nlp < d || e.mic_out_room < d
}

/// Samples still upstream of the graph's exits, each counted once per
/// stage it has yet to pass. Every frame a stage moves lowers it.
pub open spec fn backlog(s: SchedulerState, e: ExternalLevels) -> nat {
    4 * e.mic_in as nat + 3 * s.hpf_mic + 2 * s.aec + s.nlp + 4 * e.ref_in as nat + 3 * s.ref_limit
        + 2 * s.dispatch + s.hpf_ref
}

/// `n` sweeps, each seeing the outside levels that the sweeps before it
/// left: the internal rings, the outside levels and the plans.
pub open spec fn sweeps_spec(s: SchedulerState, e: ExternalLevels, n: nat) -> (
    SchedulerState,
    ExternalLevels,
    Seq<SweepPlan>,
)
    decreases n,
{
    if n == 0 {
        (s, e, Seq::empty())
    } else {
        let (u, e1, ps) = sweeps_spec(s, e, (n - 1) as nat);
        let (t, p) = sweep_spec(u, e1);
        (t, levels_after(u, e1, p), ps.push(p))
    }
}

/// What a sweep moves is bounded by what the outside rings offered, and
/// either nothing moved (and then nothing could: the graph is stalled) or
/// the backlog went down.
pub proof fn lemma_sweep_progress(s: SchedulerState, e: ExternalLevels)
    requires
        s.wf(),
    ensures
        ({
            let (t, p) = sweep_spec(s, e);
            &&& p.hpf_mic_frames * s.frame <= e.mic_in
            &&& p.limit_frames * s.frame <= e.ref_in
            &&& p.denoise_frames * s.denoise <= e.mic_out_room
            &&& p.dispatch_frames * s.frame <= e.ref_out_room
            &&& sweep_is_empty(p) ==> t == s && stalled(s, e)
            &&& !sweep_is_empty(p) ==> backlog(t, levels_after(s, e, p)) < backlog(s, e)
        }),
{
    let f = s.frame;
    let b = s.block;
    let d = s.denoise;
    let (t, p) = sweep_spec(s, e);
    lemma_sweep_conserves_samples(s, e);
    lemma_sweep_runs_stages_to_exhaustion(s, e);
    lemma_sweep_preserves_wf(s, e);
    let n1 = fit(e.mic_in as nat, (s.big_cap - s.hpf_mic) as nat, f);
    lemma_fit(e.mic_in as nat, (s.big_cap - s.hpf_mic) as nat, f);
    let n2 = fit(e.ref_in as nat, (s.small_cap - s.ref_limit) as nat, f);
    lemma_fit(e.ref_in as nat, (s.small_cap - s.ref_limit) as nat, f);
    let ref_limit1 = s.ref_limit + n2 * f;
    let n3a = fit(ref_limit1, e.ref_out_room as nat, f);
    let n3 = least(n3a, (s.small_cap - s.dispatch) as nat / f);
    lemma_fit(ref_limit1, e.ref_out_room as nat, f);
    lemma_fewer(n3, n3a, f);
    let dispatch1 = s.dispatch + n3 * f;
    let n4 = fit(dispatch1, (s.big_cap - s.hpf_ref) as nat, f);
    lemma_fit(dispatch1, (s.big_cap - s.hpf_ref) as nat, f);
    let hpf_ref1 = s.hpf_ref + n4 * f;
    let hpf_mic1 = s.hpf_mic + n1 * f;
    let n5 = fit(hpf_mic1, (s.big_cap - s.aec) as nat, b);
    lemma_fit(hpf_mic1, (s.big_cap - s.aec) as nat, b);
    let r5 = least(n5, hpf_ref1 / b);
    let aec1 = s.aec + n5 * b;
    let n6 = fit(aec1, (s.big_cap - s.nlp) as nat, f);
    lemma_fit(aec1, (s.big_cap - s.nlp) as nat, f);
    let nlp1 = s.nlp + n6 * f;
    let n7 = fit(nlp1, e.mic_out_room as nat, d);
    lemma_fit(nlp1, e.mic_out_room as nat, d);
    assert(n1 * f >= n1 && n2 * f >= n2 && n3 * f >= n3 && n4 * f >= n4) by (nonlinear_arith)
        requires
            f >= 1,
    ;
    assert(n5 * b >= n5 && n6 * f >= n6 && n7 * d >= n7) by (nonlinear_arith)
        requires
            f >= 1,
            b >= 1,
            d >= 1,
    ;
    assert(p.hpf_mic_frames as nat == n1);
    assert(p.limit_frames as nat == n2);
    assert(p.dispatch_frames as nat == n3);
    assert(p.hpf_ref_frames as nat == n4);
    assert(p.aec_blocks as nat == n5);
    assert(p.aec_ref_blocks as nat == r5);
    assert(p.nlp_frames as nat == n6);
    assert(p.denoise_frames as nat == n7);
    if sweep_is_empty(p) {
        assert(n1 == 0 && n2 == 0 && n3 == 0 && n4 == 0 && n5 == 0 && n6 == 0 && n7 == 0);
        assert(0 * f == 0 && 0 * b == 0 && 0 * d == 0) by (nonlinear_arith);
        assert(t == s);
    } else {
        assert(n1 * f + n2 * f + n3 * f + n4 * f + n5 * b + n6 * f + n7 * d >= 1);
    }
}

/// Decides, from the fill levels, how many frames each stage of the
/// audio-processing graph moves, and keeps account of the internal rings.
///
/// Stages run in this order, each only on whole frames of its size:
/// microphone high-pass, far-end limiter, dispatch of the limited far end to
/// the speaker and to the echo path, far-end high-pass, echo canceller,
/// post-filter with noise gate, denoiser.
pub struct FrameScheduler {
    frame: usize,
    block: usize,
    denoise: usize,
    small_cap: usize,
    big_cap: usize,
    ref_limit: usize,
    dispatch: usize,
    hpf_mic: usize,
    hpf_ref: usize,
    aec: usize,
    nlp: usize,
}

impl View for FrameScheduler {
    type V = SchedulerState;

    closed spec fn view(&self) -> SchedulerState {
        SchedulerState {
            frame: self.frame as nat,
            block: self.block as nat,
            denoise: self.denoise as nat,
            small_cap: self.small_cap as nat,
            big_cap: self.big_cap as nat,
            ref_limit: self.ref_limit as nat,
            dispatch: self.dispatch as nat,
            hpf_mic: self.hpf_mic as nat,
            hpf_ref: self.hpf_ref as nat,
            aec: self.aec as nat,
            nlp: self.nlp as nat,
        }
    }
}

/// Relies on nnnoiseless::DenoiseState::FRAME_SIZE: the denoiser works on
/// frames of 480 samples.
#[verifier::external_body]
fn denoise_frame_size() -> (r: usize)
    ensures
        r == 480,
{
    nnnoiseless::DenoiseState::FRAME_SIZE
}

/// Whole frames of `size` that fit both `avail` and `room`.
fn frames_that_fit(avail: usize, room: usize, size: usize) -> (n: usize)
    requires
        size > 0,
    ensures
        n as nat == fit(avail as nat, room as nat, size as nat),
        n * size <= avail,
        n * size <= room,
{
    proof {
        lemma_fit(avail as nat, room as nat, size as nat);
    }
    let a = avail / size;
    let r = room / size;
    if a <= r {
        a
    } else {
        r
    }
}

impl FrameScheduler {
    /// The scheduler of the production graph: 20 ms codec frames,
    /// 512-sample echo-canceller blocks and the denoiser's own frame.
    pub fn new() -> (r: Self)
        ensures
            r@ == SchedulerState::empty(FRAME_SIZE as nat, AEC_FRAME_SIZE as nat, 480),
            r@.wf(),
    {
        let d = denoise_frame_size();
        Self::with_frame_sizes(FRAME_SIZE, AEC_FRAME_SIZE, d)
    }

    /// A scheduler for other frame sizes; every internal ring starts empty.
    pub fn with_frame_sizes(frame: usize, block: usize, denoise: usize) -> (r: Self)
        requires
            frame > 0,
            block > 0,
            denoise > 0,
            frame % denoise == 0,
            4 * frame <= usize::MAX,
            4 * block <= usize::MAX,
        ensures
            r@ == SchedulerState::empty(frame as nat, block as nat, denoise as nat),
            r@.wf(),
    {
        let big = if frame >= block {
            frame
        } else {
            block
        };
        proof {
            assert(0nat % (frame as nat) == 0);
            assert(0nat % (denoise as nat) == 0);
        }
        FrameScheduler {
            frame,
            block,
            denoise,
            small_cap: 4 * frame,
            big_cap: 4 * big,
            ref_limit: 0,
            dispatch: 0,
            hpf_mic: 0,
            hpf_ref: 0,
            aec: 0,
            nlp: 0,
        }
    }

    /// Plans what one call of the graph's processing does: sweeps over the
    /// stages, each seeing what the sweeps before it took from and gave to
    /// the outside rings, until a sweep would move nothing. On return no
    /// stage can run. The caller runs the sweeps in order.
    pub fn plan_process(&mut self, e: ExternalLevels) -> (ps: Vec<SweepPlan>)
        requires
            old(self)@.wf(),
        ensures
            final(self)@.wf(),
            ({
                let (t, rest, plans) = sweeps_spec(old(self)@, e, ps@.len());
                &&& final(self)@ == t
                &&& ps@ == plans
                &&& stalled(t, rest)
            }),
            forall|i: int| 0 <= i < ps@.len() ==> !sweep_is_empty(#[trigger] ps@[i]),
    {
        let ghost s0 = self@;
        let mut plans: Vec<SweepPlan> = Vec::new();
        let mut levels = e;
        let mut done = false;
        while !done
            invariant
                self@.wf(),
                sweeps_spec(s0, e, plans@.len()) == (self@, levels, plans@),
                forall|i: int| 0 <= i < plans@.len() ==> !sweep_is_empty(#[trigger] plans@[i]),
                done ==> stalled(self@, levels),
            decreases backlog(self@, levels) + (if done { 0nat } else { 1nat }),
        {
            let ghost before = self@;
            proof {
                lemma_sweep_progress(before, levels);
            }
            let p = self.plan_sweep(levels);
            if p.hpf_mic_frames == 0 && p.limit_frames == 0 && p.dispatch_frames == 0
                && p.hpf_ref_frames == 0 && p.aec_blocks == 0 && p.aec_ref_blocks == 0
                && p.nlp_frames == 0 && p.denoise_frames == 0 {
                done = true;
            } else {
                let next = ExternalLevels {
                    mic_in: levels.mic_in - p.hpf_mic_frames * self.frame,
                    ref_in: levels.ref_in - p.limit_frames * self.frame,
                    mic_out_room: levels.mic_out_room - p.denoise_frames * self.denoise,
                    ref_out_room: levels.ref_out_room - p.dispatch_frames * self.frame,
                };
                proof {
                    assert(next == levels_after(before, levels, p));
                    assert(sweeps_spec(s0, e, plans@.len() + 1) == (self@, next, plans@.push(p)));
                }
                plans.push(p);
                levels = next;
            }
        }
        plans
    }

    /// Plans one sweep over the graph and books its effect on the internal
    /// rings. The caller then runs each stage the planned number of times,
    /// in order.
    pub fn plan_sweep(&mut self, e: ExternalLevels) -> (p: SweepPlan)
        requires
            old(self)@.wf(),
        ensures
            (final(self)@, p) == sweep_spec(old(self)@, e),
            final(self)@.wf(),
    {
        let ghost s = self@;
        let f = self.frame;
        let b = self.block;
        let d = self.denoise;

        // microphone high-pass
        let n1 = frames_that_fit(e.mic_in, self.big_cap - self.hpf_mic, f);
        self.hpf_mic = self.hpf_mic + n1 * f;

        // far-end limiter
        let n2 = frames_that_fit(e.ref_in, self.small_cap - self.ref_limit, f);
        self.ref_limit = self.ref_limit + n2 * f;

        // dispatch to the speaker and the echo path
        let n3a = frames_that_fit(self.ref_limit, e.ref_out_room, f);
        let n3b = (self.small_cap - self.dispatch) / f;
        let n3 = if n3a <= n3b {
            n3a
        } else {
            n3b
        };
        proof {
            lemma_fewer(n3 as nat, n3a as nat, f as nat);
            lemma_fewer(n3 as nat, n3b as nat, f as nat);
            lemma_fundamental_div_mod((s.small_cap - s.dispatch) as int, f as int);
            assert(n3b * f == f * n3b) by (nonlinear_arith);
        }
        self.ref_limit = self.ref_limit - n3 * f;
        self.dispatch = self.dispatch + n3 * f;

        // far-end high-pass
        let n4 = frames_that_fit(self.dispatch, self.big_cap - self.hpf_ref, f);
        self.dispatch = self.dispatch - n4 * f;
        self.hpf_ref = self.hpf_ref + n4 * f;

        // echo canceller; far-end blocks while they last
        let n5 = frames_that_fit(self.hpf_mic, self.big_cap - self.aec, b);
        let avail_ref = self.hpf_ref / b;
        let r5 = if n5 <= avail_ref {
            n5
        } else {
            avail_ref
        };
        proof {
            lemma_fewer(r5 as nat, avail_ref as nat, b as nat);
            lemma_fundamental_div_mod(self.hpf_ref as int, b as int);
            assert(avail_ref * b == b * avail_ref) by (nonlinear_arith);
        }
        self.hpf_mic = self.hpf_mic - n5 * b;
        self.hpf_ref = self.hpf_ref - r5 * b;
        self.aec = self.aec + n5 * b;

        // post-filter and gate
        let n6 = frames_that_fit(self.aec, self.big_cap - self.nlp, f);
        self.aec = self.aec - n6 * f;
        self.nlp = self.nlp + n6 * f;

        // denoiser
        let n7 = frames_that_fit(self.nlp, e.mic_out_room, d);
        self.nlp = self.nlp - n7 * d;
        proof {
            lemma_sweep_preserves_wf(s, e);
        }

        SweepPlan {
            hpf_mic_frames: n1,
            limit_frames: n2,
            dispatch_frames: n3,
            hpf_ref_frames: n4,
            aec_blocks: n5,
            aec_ref_blocks: r5,
            nlp_frames: n6,
            denoise_frames: n7,
        }
    }

    /// Samples now held in each internal ring.
    pub fn levels(&self) -> (r: RingLevels)
        ensures
            r.ref_limit as nat == self@.ref_limit,
            r.dispatch as nat == self@.dispatch,
            r.hpf_mic as nat == self@.hpf_mic,
            r.hpf_ref as nat == self@.hpf_ref,
            r.aec as nat == self@.aec,
            r.nlp as nat == self@.nlp,
    {
        RingLevels {
            ref_limit: self.ref_limit,
            dispatch: self.dispatch,
            hpf_mic: self.hpf_mic,
            hpf_ref: self.hpf_ref,
            aec: self.aec,
            nlp: self.nlp,
        }
    }
}

} // verus!
