//! Recovery / homing guardrails.

#[test]
fn stall_eligible_gate_matches_recovery() {
    let stall_min = 0.30f32;
    assert!(
        !((0.28f32) >= stall_min),
        "at ~16 deg error, should not be stall-eligible"
    );
    assert!(0.35f32 >= stall_min);
}

#[test]
fn motion_scale_full_scale_after_progress_simulation() {
    let mut motion_scale = 0.5f32;
    let linear_improved = true;
    if linear_improved {
        motion_scale = 1.0;
    }
    assert_eq!(motion_scale, 1.0);
}
