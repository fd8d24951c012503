use cortex::arm::{
    homing_next, preflight_api_message, preflight_decision, preflight_refusal_message, status_after_direct_move,
    status_after_recovery, HomingAction, HomingEvent, HomingState, JointHomingStatus, JointRoster,
    PreflightDecision,
};
use cortex::config::{ArmConfig, JointConfig};
use cortex::text::{join_with, str_contains};

fn j(id: Option<u8>, down: bool) -> JointConfig<()> {
    JointConfig { can_id: id, actuator: "rs03".into(), straight_down_home_at_startup: down, params: () }
}

#[test]
fn status_names() {
    assert_eq!(JointHomingStatus::AlreadyHome.as_str(), "already_home");
    assert_eq!(JointHomingStatus::StalledButHomed.as_str(), "stalled_but_homed");
    assert_eq!(JointHomingStatus::Error("x".into()).as_str(), "error");
    assert_eq!(JointHomingStatus::Skipped.as_str(), "skipped");
}

#[test]
fn recovery_outcomes_classified() {
    assert!(matches!(status_after_recovery(Ok(0)), JointHomingStatus::Homed));
    assert!(matches!(status_after_recovery(Ok(2)), JointHomingStatus::StalledButHomed));
    assert!(matches!(
        status_after_recovery(Err("startup recovery timed out: target 0.000 rad".into())),
        JointHomingStatus::TimedOut
    ));
    match status_after_recovery(Err("bus error".into())) {
        JointHomingStatus::Error(m) => assert_eq!(m, "bus error"),
        other => panic!("unexpected {:?}", other),
    }
    assert!(matches!(status_after_direct_move(true), JointHomingStatus::Homed));
    assert!(matches!(status_after_direct_move(false), JointHomingStatus::StalledButHomed));
}

#[test]
fn roster_keeps_order_and_skips_missing_motors() {
    let cfg = ArmConfig {
        shoulder_pitch: j(Some(8), false),
        shoulder_roll: j(Some(9), true),
        upper_arm_yaw: j(None, false),
        elbow_pitch: j(Some(11), true),
    };
    let r = JointRoster::from_config(&cfg, &[11, 8]);
    assert_eq!(r.joint_names(), vec!["shoulder_pitch", "elbow_pitch"]);
    assert_eq!(r.entries[1].index, 3);
    assert_eq!(r.entries[1].can_id, 11);
    assert_eq!(r.position("elbow_pitch"), Some(1));
    assert_eq!(r.position("shoulder_roll"), None);
    assert_eq!(r.straight_down_positions(), vec![1]);
}

#[test]
fn preflight_decisions_and_messages() {
    assert_eq!(preflight_decision(true, false), PreflightDecision::Proceed);
    assert_eq!(preflight_decision(false, true), PreflightDecision::ProceedOverridden);
    assert_eq!(preflight_decision(false, false), PreflightDecision::Refuse);
    let v = vec!["shoulder_pitch: 3.0° past min limit".to_string(), "elbow_pitch: 1.5° past max limit".to_string()];
    assert_eq!(
        preflight_refusal_message(&v),
        "Pre-flight check failed: shoulder_pitch: 3.0° past min limit; elbow_pitch: 1.5° past max limit. Resolve violations or use force override."
    );
    assert_eq!(preflight_api_message(&vec![]), "Pre-flight check failed: ");
}

#[test]
fn text_helpers() {
    assert!(str_contains("startup recovery timed out", "timed out"));
    assert!(!str_contains("timed", "timed out"));
    assert!(str_contains("abc", ""));
    assert_eq!(join_with(&vec!["a".into(), "b".into(), "c".into()], "; "), "a; b; c");
    assert_eq!(join_with(&vec![], "; "), "");
}

fn report_name(a: &HomingAction) -> Option<String> {
    match a {
        HomingAction::Report(s) => Some(match s {
            JointHomingStatus::Error(m) => format!("error: {}", m),
            other => other.as_str().to_string(),
        }),
        _ => None,
    }
}

#[test]
fn homing_reports_unreadable_and_already_home_joints_without_enabling() {
    let (s, a) = homing_next(HomingState::Started, HomingEvent::StartRead(Err("no reply".into())));
    assert_eq!(s, HomingState::Finished);
    assert_eq!(report_name(&a).as_deref(), Some("error: no reply"));

    let (s, a) = homing_next(HomingState::Started, HomingEvent::StartRead(Ok(())));
    assert_eq!(s, HomingState::Measuring);
    assert!(matches!(a, HomingAction::Measure));
    let (s, a) = homing_next(s, HomingEvent::Measured { settled: true, near: true });
    assert_eq!(s, HomingState::Finished);
    assert_eq!(report_name(&a).as_deref(), Some("already_home"));
}

#[test]
fn homing_routes_near_joints_to_ramp_and_far_joints_to_recovery() {
    let (s, a) = homing_next(HomingState::Measuring, HomingEvent::Measured { settled: false, near: true });
    assert_eq!(s, HomingState::Enabling { near: true });
    assert!(matches!(a, HomingAction::Enable));
    let (s, a) = homing_next(s, HomingEvent::Enabled(Ok(())));
    assert_eq!(s, HomingState::Moving { ramp: true });
    assert!(matches!(a, HomingAction::RunRamp));
    let (s, a) = homing_next(s, HomingEvent::RampFinished { settled: false });
    assert_eq!(s, HomingState::Finished);
    assert_eq!(report_name(&a).as_deref(), Some("stalled_but_homed"));

    let (s, _) = homing_next(HomingState::Enabling { near: false }, HomingEvent::Enabled(Ok(())));
    assert_eq!(s, HomingState::Moving { ramp: false });
    let (_, a) = homing_next(s, HomingEvent::RecoveryFinished(Err("startup recovery timed out: x".into())));
    assert_eq!(report_name(&a).as_deref(), Some("timed_out"));
    let (_, a) = homing_next(s, HomingEvent::RecoveryFinished(Ok(0)));
    assert_eq!(report_name(&a).as_deref(), Some("homed"));
}

#[test]
fn homing_enable_failure_reported_once() {
    let (s, a) = homing_next(HomingState::Enabling { near: false }, HomingEvent::Enabled(Err("bus".into())));
    assert_eq!(s, HomingState::Finished);
    assert_eq!(report_name(&a).as_deref(), Some("error: enable failed: bus"));
    let (s2, a2) = homing_next(s, HomingEvent::RampFinished { settled: true });
    assert_eq!(s2, HomingState::Finished);
    assert!(matches!(a2, HomingAction::Ignore));
}
