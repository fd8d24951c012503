use cortex::recovery::{RecoveryStage, RecoveryTracker, TickPlan, TickReading};

fn reading(improved: bool, settled: bool, within_handoff: bool, in_direct_zone: bool) -> TickReading {
    TickReading { improved, settled, within_handoff, in_direct_zone }
}

#[test]
fn recovery_starts_in_approach_when_enabled() {
    let t = RecoveryTracker::new(true, 2);
    assert_eq!(t.stage(), RecoveryStage::Approach);
    let t = RecoveryTracker::new(false, 2);
    assert_eq!(t.stage(), RecoveryStage::Gradual);
    assert_eq!(t.backoffs(), 0);
}

#[test]
fn recovery_backoff_scales_down_until_progress() {
    let mut t = RecoveryTracker::new(true, 2);
    let p = t.plan(reading(true, false, false, false));
    assert_eq!(p, TickPlan::Command { direct: false, scaled_down: false, settle_ticks: 0 });
    assert!(!t.after_command(true));
    t.plan(reading(false, false, false, false));
    assert!(t.after_command(true));
    assert_eq!(t.backoffs(), 1);
    // No progress: still scaled down.
    let p = t.plan(reading(false, false, false, false));
    assert_eq!(p, TickPlan::Command { direct: false, scaled_down: true, settle_ticks: 0 });
    assert!(!t.after_command(false));
    // Progress: back to full scale.
    let p = t.plan(reading(true, false, false, false));
    assert_eq!(p, TickPlan::Command { direct: false, scaled_down: false, settle_ticks: 0 });
}

#[test]
fn recovery_hands_off_and_settles() {
    let mut t = RecoveryTracker::new(true, 2);
    assert_eq!(t.plan(reading(true, false, true, false)), TickPlan::HandOff);
    t.start_gradual();
    assert_eq!(t.stage(), RecoveryStage::Gradual);
    assert_eq!(t.plan(reading(true, true, false, false)), TickPlan::Settled);
}

#[test]
fn recovery_direct_zone_counts_and_restarts() {
    let mut t = RecoveryTracker::new(false, 3);
    assert_eq!(t.plan(reading(true, false, false, true)), TickPlan::Command { direct: true, scaled_down: false, settle_ticks: 1 });
    t.after_command(false);
    assert_eq!(t.plan(reading(false, false, false, true)), TickPlan::Command { direct: true, scaled_down: false, settle_ticks: 2 });
    t.after_command(false);
    assert_eq!(t.plan(reading(false, false, false, false)), TickPlan::Command { direct: false, scaled_down: false, settle_ticks: 0 });
    t.after_command(false);
    assert_eq!(t.plan(reading(false, false, false, true)), TickPlan::Command { direct: true, scaled_down: false, settle_ticks: 1 });
}

#[test]
fn recovery_direct_zone_runs_at_full_scale_after_backoff() {
    let mut t = RecoveryTracker::new(false, 1);
    t.plan(reading(true, false, false, false));
    assert!(t.after_command(true));
    let p = t.plan(reading(false, false, false, true));
    assert_eq!(p, TickPlan::Command { direct: true, scaled_down: false, settle_ticks: 1 });
}
