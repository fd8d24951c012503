use cortex::safety::{fault_names, FaultFlags, ResistanceMonitor, StallDetector};

#[test]
fn stall_trips_after_confirm_ticks() {
    let mut d = StallDetector::new(StallDetector::default_confirm_ticks());
    assert!(!d.update(true));
    assert!(!d.update(true));
    assert!(d.update(true));
    assert!(d.update(true));
    assert!(!d.update(false));
    assert_eq!(d.streak(), 0);
}

#[test]
fn stall_unblocked_tick_restarts_run() {
    let mut d = StallDetector::new(2);
    assert!(!d.update(true));
    assert!(!d.update(false));
    assert!(!d.update(true));
    assert!(d.update(true));
}

#[test]
fn stall_disabled_never_trips() {
    let mut d = StallDetector::new(1);
    d.disable();
    assert!(!d.is_enabled());
    for _ in 0..10 {
        assert!(!d.update(true));
    }
    d.enable();
    assert!(d.update(true));
}

#[test]
fn stall_reset_and_reconfigure() {
    let mut d = StallDetector::new(3);
    d.update(true);
    d.update(true);
    d.reset();
    assert_eq!(d.streak(), 0);
    d.set_confirm_ticks(1);
    assert_eq!(d.confirm_ticks(), 1);
    assert!(d.update(true));
}

#[test]
fn resistance_backs_off_every_confirm_ticks() {
    let mut m = ResistanceMonitor::new(2);
    let outs: Vec<bool> = (0..6).map(|_| m.observe(true)).collect();
    assert_eq!(outs, vec![false, true, false, true, false, true]);
    assert_eq!(m.backoffs(), 3);
}

#[test]
fn resistance_zero_confirm_means_one_and_progress_resets() {
    let mut m = ResistanceMonitor::new(0);
    assert!(m.observe(true));
    let mut m = ResistanceMonitor::new(3);
    m.observe(true);
    m.observe(true);
    m.progress();
    assert!(!m.observe(true));
    assert!(!m.observe(false));
    assert_eq!(m.backoffs(), 0);
}

#[test]
fn fault_names_in_reporting_order() {
    let f = FaultFlags {
        undervoltage: true,
        overcurrent: false,
        over_temperature: true,
        magnetic_encoding: false,
        hall_encoding: false,
        uncalibrated: true,
    };
    assert_eq!(fault_names(&f), vec!["undervoltage", "over_temperature", "uncalibrated"]);
    let none = FaultFlags {
        undervoltage: false,
        overcurrent: false,
        over_temperature: false,
        magnetic_encoding: false,
        hall_encoding: false,
        uncalibrated: false,
    };
    assert!(fault_names(&none).is_empty());
}

#[test]
fn stall_trips_only_on_long_enough_runs_in_mixed_ticks() {
    let mut d = StallDetector::new(2);
    let ticks = [true, false, true, true, true, false, true];
    let trips: Vec<bool> = ticks.iter().map(|&t| d.update(t)).collect();
    assert_eq!(trips, vec![false, false, false, true, true, false, false]);
    assert_eq!(d.streak(), 1);
}
