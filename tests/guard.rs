use hachimi_cat::aec_guard::{AecGuard, GuardVerdict};

#[test]
fn guard_starts_fresh_and_passes_healthy_frames() {
    let mut g = AecGuard::new(5, 30);
    assert_eq!(g.assume_count(), 0);
    assert_eq!(g.cooldown_remaining(), 0);
    for _ in 0..100 {
        assert_eq!(g.examine_and_protect(false), GuardVerdict::Healthy);
    }
    assert_eq!(g.assume_count(), 0);
}

#[test]
fn guard_sustained_divergence_cycle() {
    let mut g = AecGuard::new(5, 30);
    for i in 0..5 {
        assert_eq!(g.examine_and_protect(true), GuardVerdict::Diverged);
        assert_eq!(g.assume_count(), i + 1);
    }
    assert_eq!(g.examine_and_protect(true), GuardVerdict::Reset);
    assert_eq!(g.assume_count(), 0);
    assert_eq!(g.cooldown_remaining(), 30);
    for i in 0..30 {
        assert_eq!(g.examine_and_protect(true), GuardVerdict::Bypass);
        assert_eq!(g.cooldown_remaining(), 29 - i);
    }
    // fresh again: the next cycle starts with a diverged frame
    assert_eq!(g.examine_and_protect(true), GuardVerdict::Diverged);
    assert_eq!(g.assume_count(), 1);
}

#[test]
fn guard_single_diverged_frame_resets_filter_only() {
    let mut g = AecGuard::new(5, 30);
    let v = g.examine_and_protect(true);
    assert_eq!(v, GuardVerdict::Diverged);
    assert!(v.resets_filter());
    let next = g.examine_and_protect(false);
    assert_eq!(next, GuardVerdict::Healthy);
    assert!(!next.resets_filter());
    assert_eq!(g.assume_count(), 1);
    assert_eq!(g.cooldown_remaining(), 0);
}

#[test]
fn guard_count_is_not_cleared_by_healthy_frames() {
    let mut g = AecGuard::new(2, 1);
    assert_eq!(g.examine_and_protect(true), GuardVerdict::Diverged);
    assert_eq!(g.examine_and_protect(false), GuardVerdict::Healthy);
    assert_eq!(g.examine_and_protect(true), GuardVerdict::Diverged);
    assert_eq!(g.examine_and_protect(false), GuardVerdict::Reset);
    assert_eq!(g.examine_and_protect(false), GuardVerdict::Bypass);
    assert_eq!(g.examine_and_protect(false), GuardVerdict::Healthy);
}

#[test]
fn guard_zero_threshold_resets_every_frame() {
    let mut g = AecGuard::new(0, 3);
    for _ in 0..4 {
        assert_eq!(g.examine_and_protect(false), GuardVerdict::Reset);
        assert_eq!(g.cooldown_remaining(), 3);
    }
}

#[test]
fn guard_verdicts_that_reset_the_filter() {
    assert!(GuardVerdict::Reset.resets_filter());
    assert!(GuardVerdict::Diverged.resets_filter());
    assert!(!GuardVerdict::Bypass.resets_filter());
    assert!(!GuardVerdict::Healthy.resets_filter());
}
