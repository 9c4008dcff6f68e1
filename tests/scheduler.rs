use hachimi_cat::constant::{AEC_FRAME_SIZE, FRAME_SIZE, RB_SIZE, SAMPLE_RATE};
use hachimi_cat::scheduler::{ExternalLevels, FrameScheduler, SweepPlan, RingLevels};

fn idle_levels(mic_in: usize, ref_in: usize) -> ExternalLevels {
    ExternalLevels { mic_in, ref_in, mic_out_room: RB_SIZE, ref_out_room: RB_SIZE }
}

#[test]
fn constants_agree() {
    assert_eq!(FRAME_SIZE, SAMPLE_RATE as usize / 50);
    assert_eq!(RB_SIZE, 4 * FRAME_SIZE);
    assert_eq!(AEC_FRAME_SIZE, 512);
}

#[test]
fn scheduler_first_pass_of_one_frame() {
    let mut s = FrameScheduler::new();
    let p = s.plan_sweep(idle_levels(FRAME_SIZE, FRAME_SIZE));
    assert_eq!(
        p,
        SweepPlan {
            hpf_mic_frames: 1,
            limit_frames: 1,
            dispatch_frames: 1,
            hpf_ref_frames: 1,
            aec_blocks: 1,
            aec_ref_blocks: 1,
            nlp_frames: 0,
            denoise_frames: 0,
        }
    );
    assert_eq!(
        s.levels(),
        RingLevels { ref_limit: 0, dispatch: 0, hpf_mic: 448, hpf_ref: 448, aec: 512, nlp: 0 }
    );
}

#[test]
fn scheduler_idle_pass_through_ten_frames() {
    let mut s = FrameScheduler::new();
    let mut mic_out = 0usize;
    let mut ref_out = 0usize;
    for _ in 0..10 {
        let p = s.plan_sweep(idle_levels(FRAME_SIZE, FRAME_SIZE));
        assert_eq!(p.hpf_mic_frames, 1);
        assert_eq!(p.limit_frames, 1);
        mic_out += p.denoise_frames * 480;
        ref_out += p.dispatch_frames * FRAME_SIZE;
    }
    assert_eq!(ref_out, 10 * FRAME_SIZE);
    // the echo canceller works in 512-sample blocks, so part of the last
    // frames is still on its way through the graph
    let l = s.levels();
    assert_eq!(mic_out, 8640);
    assert_eq!(l.hpf_mic, 384);
    assert_eq!(l.aec, 576);
    assert_eq!(l.nlp, 0);
    assert_eq!(mic_out + l.hpf_mic + l.aec + l.nlp, 10 * FRAME_SIZE);
}

#[test]
fn scheduler_nothing_to_do_on_empty_input() {
    let mut s = FrameScheduler::new();
    let p = s.plan_sweep(idle_levels(FRAME_SIZE - 1, 0));
    assert_eq!(
        p,
        SweepPlan {
            hpf_mic_frames: 0,
            limit_frames: 0,
            dispatch_frames: 0,
            hpf_ref_frames: 0,
            aec_blocks: 0,
            aec_ref_blocks: 0,
            nlp_frames: 0,
            denoise_frames: 0,
        }
    );
}

#[test]
fn scheduler_echo_canceller_runs_against_silence_without_reference() {
    let mut s = FrameScheduler::new();
    let p = s.plan_sweep(idle_levels(2 * FRAME_SIZE, 0));
    assert_eq!(p.aec_blocks, 3);
    assert_eq!(p.aec_ref_blocks, 0);
    assert_eq!(p.nlp_frames, 1);
    assert_eq!(p.denoise_frames, 2);
}

#[test]
fn scheduler_full_speaker_ring_holds_back_dispatch() {
    let mut s = FrameScheduler::new();
    let e = ExternalLevels { mic_in: 0, ref_in: 3 * FRAME_SIZE, mic_out_room: 0, ref_out_room: FRAME_SIZE - 1 };
    let p = s.plan_sweep(e);
    assert_eq!(p.limit_frames, 3);
    assert_eq!(p.dispatch_frames, 0);
    assert_eq!(s.levels().ref_limit, 3 * FRAME_SIZE);
    // the limiter's ring is now nearly full: only one more frame fits
    let p2 = s.plan_sweep(ExternalLevels { mic_in: 0, ref_in: 4 * FRAME_SIZE, mic_out_room: 0, ref_out_room: 0 });
    assert_eq!(p2.limit_frames, 1);
    assert_eq!(s.levels().ref_limit, 4 * FRAME_SIZE);
}

#[test]
fn scheduler_full_encoder_ring_holds_back_denoiser() {
    let mut s = FrameScheduler::new();
    let mut e = ExternalLevels { mic_in: 4 * FRAME_SIZE, ref_in: 0, mic_out_room: 0, ref_out_room: RB_SIZE };
    let mut denoised = 0usize;
    for _ in 0..6 {
        denoised += s.plan_sweep(e).denoise_frames;
    }
    assert_eq!(denoised, 0);
    let l = s.levels();
    assert!(l.hpf_mic <= RB_SIZE && l.aec <= RB_SIZE && l.nlp <= RB_SIZE);
    assert_eq!(l.nlp % 480, 0);
    e.mic_out_room = 480;
    assert_eq!(s.plan_sweep(e).denoise_frames, 1);
}

#[test]
fn scheduler_rings_hold_whole_frames_after_many_passes() {
    let mut s = FrameScheduler::new();
    let mut x: usize = 12345;
    for _ in 0..500 {
        x = x.wrapping_mul(1103515245).wrapping_add(12345) % 100000;
        let e = ExternalLevels {
            mic_in: x % 5000,
            ref_in: (x / 7) % 5000,
            mic_out_room: (x / 13) % 4000,
            ref_out_room: (x / 17) % 4000,
        };
        s.plan_sweep(e);
        let l = s.levels();
        assert_eq!(l.ref_limit % FRAME_SIZE, 0);
        assert_eq!(l.dispatch % FRAME_SIZE, 0);
        assert_eq!(l.nlp % 480, 0);
        assert_eq!(l.hpf_mic % 64, 0);
        assert_eq!(l.hpf_ref % 64, 0);
        assert_eq!(l.aec % 64, 0);
    }
}

#[test]
fn scheduler_same_inputs_same_plans() {
    let mut a = FrameScheduler::new();
    let mut b = FrameScheduler::new();
    for k in 0..50usize {
        let e = ExternalLevels { mic_in: (k * 331) % 3000, ref_in: (k * 977) % 3000, mic_out_room: 1500, ref_out_room: 2000 };
        assert_eq!(a.plan_sweep(e), b.plan_sweep(e));
        assert_eq!(a.levels(), b.levels());
    }
}

#[test]
fn scheduler_small_frame_sizes() {
    let mut s = FrameScheduler::with_frame_sizes(4, 6, 2);
    let p = s.plan_sweep(ExternalLevels { mic_in: 13, ref_in: 9, mic_out_room: 100, ref_out_room: 4 });
    assert_eq!(p.hpf_mic_frames, 3);
    assert_eq!(p.limit_frames, 2);
    assert_eq!(p.dispatch_frames, 1);
    assert_eq!(p.hpf_ref_frames, 1);
    assert_eq!(p.aec_blocks, 2);
    assert_eq!(p.aec_ref_blocks, 0);
    assert_eq!(p.nlp_frames, 3);
    assert_eq!(p.denoise_frames, 6);
    assert_eq!(s.levels(), RingLevels { ref_limit: 4, dispatch: 0, hpf_mic: 0, hpf_ref: 4, aec: 0, nlp: 0 });
}

fn total(plans: &[SweepPlan]) -> SweepPlan {
    let mut t = SweepPlan {
        hpf_mic_frames: 0,
        limit_frames: 0,
        dispatch_frames: 0,
        hpf_ref_frames: 0,
        aec_blocks: 0,
        aec_ref_blocks: 0,
        nlp_frames: 0,
        denoise_frames: 0,
    };
    for p in plans {
        t.hpf_mic_frames += p.hpf_mic_frames;
        t.limit_frames += p.limit_frames;
        t.dispatch_frames += p.dispatch_frames;
        t.hpf_ref_frames += p.hpf_ref_frames;
        t.aec_blocks += p.aec_blocks;
        t.aec_ref_blocks += p.aec_ref_blocks;
        t.nlp_frames += p.nlp_frames;
        t.denoise_frames += p.denoise_frames;
    }
    t
}

#[test]
fn process_drains_work_freed_by_later_stages() {
    let mut s = FrameScheduler::new();
    let blocked = ExternalLevels { mic_in: RB_SIZE, ref_in: 0, mic_out_room: 0, ref_out_room: RB_SIZE };
    s.plan_process(blocked);
    s.plan_process(blocked);
    let before = s.levels();
    assert_eq!(before.nlp, RB_SIZE);
    let plans = s.plan_process(ExternalLevels { mic_in: 0, ref_in: 0, mic_out_room: RB_SIZE, ref_out_room: RB_SIZE });
    assert!(plans.len() >= 2);
    let l = s.levels();
    // no stage is left with a whole frame of input and a whole frame of room
    assert!(l.aec < FRAME_SIZE || RB_SIZE - l.nlp < FRAME_SIZE);
    assert!(l.hpf_mic < AEC_FRAME_SIZE || RB_SIZE - l.aec < AEC_FRAME_SIZE);
    let t = total(&plans);
    assert!(l.nlp < 480 || RB_SIZE - t.denoise_frames * 480 < 480);
    assert_eq!(t.denoise_frames * 480, RB_SIZE);
    assert!(t.nlp_frames >= 1);
}

#[test]
fn process_idle_pass_through_ten_frames() {
    let mut s = FrameScheduler::new();
    let mut mic_out = 0usize;
    let mut ref_out = 0usize;
    for _ in 0..10 {
        let plans = s.plan_process(idle_levels(FRAME_SIZE, FRAME_SIZE));
        for p in plans.iter() {
            assert_ne!(*p, total(&[]));
        }
        let t = total(&plans);
        assert_eq!(t.hpf_mic_frames, 1);
        assert_eq!(t.limit_frames, 1);
        mic_out += t.denoise_frames * 480;
        ref_out += t.dispatch_frames * FRAME_SIZE;
    }
    assert_eq!(ref_out, 10 * FRAME_SIZE);
    let l = s.levels();
    assert_eq!(mic_out, 8640);
    assert_eq!(mic_out + l.hpf_mic + l.aec + l.nlp, 10 * FRAME_SIZE);
}

#[test]
fn process_with_nothing_to_do_plans_no_sweep() {
    let mut s = FrameScheduler::new();
    assert!(s.plan_process(idle_levels(FRAME_SIZE - 1, 0)).is_empty());
}
