use cortex::config::{
    can_id_for_joint, default_approach_step_period_ms, default_resistance_backoff_ms,
    default_resistance_confirm_ticks, default_settle_ramp_ticks, default_startup_step_period_ms,
    default_transport, default_true, ArmConfig, BusConfig, ConfigError, JointConfig, RobotConfig, Section,
    TorsoConfig,
};

fn joint(can_id: Option<u8>, home: f64) -> JointConfig<f64> {
    JointConfig {
        can_id,
        actuator: "rs03".to_string(),
        straight_down_home_at_startup: false,
        params: home,
    }
}

fn arm(ids: [Option<u8>; 4]) -> ArmConfig<f64> {
    ArmConfig {
        shoulder_pitch: joint(ids[0], 0.0),
        shoulder_roll: joint(ids[1], 0.1),
        upper_arm_yaw: joint(ids[2], 0.2),
        elbow_pitch: joint(ids[3], 0.3),
    }
}

fn bus() -> BusConfig {
    BusConfig {
        transport: "ch341".into(),
        port: "COM5".into(),
        socketcan_interface: None,
        baud: 921600,
        can_bitrate: 1000000,
        host_id: 0xAA,
    }
}

fn robot() -> RobotConfig<f64, ()> {
    RobotConfig {
        bus: bus(),
        actuators: (),
        arm_left: Some(arm([Some(8), None, Some(10), None])),
        arm_right: Some(arm([Some(20), Some(21), None, None])),
        waist: Some(vec![("yaw".to_string(), joint(Some(30), 0.5)), ("pitch".to_string(), joint(None, 0.6))]),
        torso: Some(TorsoConfig { frame: "2020".into(), dimensions_mm: (300, 200, 500) }),
    }
}

#[test]
fn defaults_match_documented_values() {
    assert_eq!(default_transport(), "ch341");
    assert_eq!(default_startup_step_period_ms(), 40);
    assert!(default_true());
    assert_eq!(default_approach_step_period_ms(), 25);
    assert_eq!(default_resistance_confirm_ticks(), 2);
    assert_eq!(default_resistance_backoff_ms(), 1000);
    assert_eq!(default_settle_ramp_ticks(), 20);
}

#[test]
fn arm_joints_in_fixed_order() {
    let a = arm([Some(1), Some(2), Some(3), Some(4)]);
    let names: Vec<&str> = a.joints().iter().map(|(n, _)| *n).collect();
    assert_eq!(names, vec!["shoulder_pitch", "shoulder_roll", "upper_arm_yaw", "elbow_pitch"]);
    assert_eq!(a.joints()[2].1.can_id, Some(3));
}

#[test]
fn active_joints_skips_unassigned() {
    let a = arm([Some(8), None, Some(10), None]);
    let active: Vec<(&str, Option<u8>)> = a.active_joints().iter().map(|(n, j)| (*n, j.can_id)).collect();
    assert_eq!(active, vec![("shoulder_pitch", Some(8)), ("upper_arm_yaw", Some(10))]);
}

#[test]
fn arm_set_can_id_known_and_unknown() {
    let mut a = arm([None, None, None, None]);
    assert!(a.set_can_id("elbow_pitch", Some(7)).is_ok());
    assert_eq!(a.elbow_pitch.can_id, Some(7));
    let err = a.set_can_id("wrist", Some(9)).unwrap_err();
    assert_eq!(err.message(), "unknown joint 'wrist'");
    assert_eq!(a.elbow_pitch.can_id, Some(7));
}

#[test]
fn arm_clear_can_id_only_matching() {
    let mut a = arm([Some(5), Some(6), Some(5), None]);
    a.clear_can_id(5);
    assert_eq!(a.shoulder_pitch.can_id, None);
    assert_eq!(a.shoulder_roll.can_id, Some(6));
    assert_eq!(a.upper_arm_yaw.can_id, None);
}

#[test]
fn assigned_can_ids_in_slot_order() {
    let c = robot();
    assert_eq!(c.assigned_can_ids(), vec![8, 10, 20, 21, 30]);
}

#[test]
fn joint_slots_lists_every_slot() {
    let c = robot();
    let slots = c.joint_slots();
    assert_eq!(slots.len(), 10);
    assert_eq!(slots[0], ("arm_left".to_string(), "shoulder_pitch".to_string(), Some(8)));
    assert_eq!(slots[5], ("arm_right".to_string(), "shoulder_roll".to_string(), Some(21)));
    assert_eq!(slots[8], ("waist".to_string(), "yaw".to_string(), Some(30)));
    assert_eq!(slots[9], ("waist".to_string(), "pitch".to_string(), None));
}

#[test]
fn clear_can_id_across_sections() {
    let mut c = robot();
    c.waist.as_mut().unwrap()[1].1.can_id = Some(8);
    c.clear_can_id(8);
    assert_eq!(c.assigned_can_ids(), vec![10, 20, 21, 30]);
    assert_eq!(c.waist.as_ref().unwrap()[1].1.can_id, None);
}

#[test]
fn assign_moves_id_to_new_slot() {
    let mut c = robot();
    assert!(c.assign_can_id("arm_right", "elbow_pitch", 8).is_ok());
    assert_eq!(c.arm_left.as_ref().unwrap().shoulder_pitch.can_id, None);
    assert_eq!(c.arm_right.as_ref().unwrap().elbow_pitch.can_id, Some(8));
    assert_eq!(can_id_for_joint(&c, "arm_right", "elbow_pitch"), Some(8));
    assert_eq!(can_id_for_joint(&c, "arm_left", "shoulder_pitch"), None);
    assert_eq!(c.assigned_can_ids(), vec![10, 20, 21, 8, 30]);
}

#[test]
fn assign_to_waist_joint() {
    let mut c = robot();
    assert!(c.assign_can_id("waist", "pitch", 10).is_ok());
    assert_eq!(can_id_for_joint(&c, "waist", "pitch"), Some(10));
    assert_eq!(can_id_for_joint(&c, "arm_left", "upper_arm_yaw"), None);
}

#[test]
fn assign_errors_name_what_is_missing_and_still_clear() {
    let mut c = robot();
    let e = c.assign_can_id("legs", "knee", 8).unwrap_err();
    assert_eq!(e.message(), "unknown section 'legs'");
    assert!(matches!(e, ConfigError::UnknownSection(_)));
    // the ID was cleared before the section was checked
    assert_eq!(can_id_for_joint(&c, "arm_left", "shoulder_pitch"), None);

    let mut c = robot();
    let e = c.assign_can_id("arm_left", "wrist", 9).unwrap_err();
    assert_eq!(e.message(), "unknown joint 'wrist' in arm_left: unknown joint 'wrist'");

    let mut c = robot();
    let e = c.assign_can_id("waist", "roll", 9).unwrap_err();
    assert_eq!(e.message(), "unknown joint 'roll' in waist");

    let mut c = robot();
    c.arm_right = None;
    let e = c.assign_can_id("arm_right", "elbow_pitch", 9).unwrap_err();
    assert_eq!(e.message(), "arm_right section not configured");

    let mut c = robot();
    c.waist = None;
    let e = c.assign_can_id("waist", "yaw", 9).unwrap_err();
    assert_eq!(e.message(), "waist section not configured");
}

#[test]
fn find_joint_returns_first_holder() {
    let c = robot();
    assert_eq!(c.find_joint(21).map(|j| j.params), Some(0.1));
    assert_eq!(c.find_joint(30).map(|j| j.params), Some(0.5));
    assert!(c.find_joint(99).is_none());
}

#[test]
fn assigned_joints_pairs_ids_with_joints() {
    let c = robot();
    let pairs: Vec<(u8, f64)> = c.assigned_joints().iter().map(|(id, j)| (*id, j.params)).collect();
    assert_eq!(pairs, vec![(8, 0.0), (10, 0.2), (20, 0.0), (21, 0.1), (30, 0.5)]);
}

#[test]
fn can_id_for_unknown_slot_is_none() {
    let c = robot();
    assert_eq!(can_id_for_joint(&c, "arm_left", "wrist"), None);
    assert_eq!(can_id_for_joint(&c, "torso", "yaw"), None);
}

#[test]
fn locate_and_edit_slots() {
    let mut c = robot();
    let r = c.locate_slot("arm_right", "shoulder_roll").unwrap();
    assert_eq!(r.section, Section::ArmRight);
    assert_eq!(r.index, 1);
    c.slot_mut(r).params = 1.25;
    assert_eq!(c.arm_right.as_ref().unwrap().shoulder_roll.params, 1.25);
    let w = c.locate_slot("waist", "pitch").unwrap();
    assert_eq!(w.section, Section::Waist);
    assert_eq!(w.index, 1);
    c.slot_mut(w).params = -0.5;
    assert_eq!(c.waist.as_ref().unwrap()[1].1.params, -0.5);
    assert!(c.locate_slot("waist", "roll").is_none());
    assert!(c.locate_slot("legs", "knee").is_none());
    let mut a = arm([None, None, None, None]);
    a.joint_mut(3).params = 9.0;
    assert_eq!(a.elbow_pitch.params, 9.0);
}

#[test]
fn slot_names_stay_distinct_after_edits() {
    let mut c = robot();
    c.assign_can_id("waist", "pitch", 8).unwrap();
    c.clear_can_id(20);
    let slot = c.locate_slot("waist", "yaw").unwrap();
    c.slot_mut(slot).params = 1.5;
    let slots = c.joint_slots();
    for a in 0..slots.len() {
        for b in (a + 1)..slots.len() {
            assert!(!(slots[a].0 == slots[b].0 && slots[a].1 == slots[b].1));
        }
    }
    assert_eq!(slots.len(), 10);
    assert_eq!(slots[9], ("waist".to_string(), "pitch".to_string(), Some(8)));
}

#[test]
fn waist_name_check_finds_duplicates() {
    let mut c = robot();
    assert!(c.has_distinct_waist_names());
    c.waist.as_mut().unwrap().push(("yaw".to_string(), joint(None, 0.0)));
    assert!(!c.has_distinct_waist_names());
    c.waist = None;
    assert!(c.has_distinct_waist_names());
}
