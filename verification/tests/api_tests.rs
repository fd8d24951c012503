use cortex::api::{
    clamp_log_limit, discovery_action, joint_key_of, joint_name_map, repl_command, sequence_action,
    sequence_catalog, side_for_section, slot_display_name, sweep_key, DiscoveryAction, ReplCommand,
    SequenceAction,
};
use cortex::config::{ArmConfig, BusConfig, JointConfig, RobotConfig};

fn j(id: Option<u8>) -> JointConfig<()> {
    JointConfig { can_id: id, actuator: "rs03".into(), straight_down_home_at_startup: false, params: () }
}

#[test]
fn log_limit_defaults_and_caps() {
    assert_eq!(clamp_log_limit(None), 200);
    assert_eq!(clamp_log_limit(Some(10)), 10);
    assert_eq!(clamp_log_limit(Some(5000)), 500);
}

#[test]
fn sides_and_keys() {
    assert_eq!(side_for_section("arm_left"), "left");
    assert_eq!(side_for_section("arm_right"), "right");
    assert_eq!(side_for_section("waist"), "");
    assert_eq!(joint_key_of("arm_left", "elbow_pitch"), "left_elbow_pitch");
    assert_eq!(joint_key_of("waist", "yaw"), "waist_yaw");
    assert_eq!(sweep_key("left", "elbow_pitch"), "left/elbow_pitch");
}

#[test]
fn display_names_capitalise_words() {
    assert_eq!(slot_display_name("arm_left", "shoulder_pitch"), "Left Shoulder Pitch");
    assert_eq!(slot_display_name("waist", "yaw"), "Waist Yaw");
    assert_eq!(slot_display_name("arm_right", "a__b"), "Right A  B");
}

#[test]
fn joint_name_map_last_slot_wins() {
    let config = RobotConfig {
        bus: BusConfig {
            transport: "ch341".into(),
            port: "COM5".into(),
            socketcan_interface: None,
            baud: 921600,
            can_bitrate: 1000000,
            host_id: 0xAA,
        },
        actuators: (),
        arm_left: Some(ArmConfig { shoulder_pitch: j(Some(8)), shoulder_roll: j(None), upper_arm_yaw: j(None), elbow_pitch: j(Some(9)) }),
        arm_right: None,
        waist: Some(vec![("yaw".to_string(), j(Some(9)))]),
        torso: None,
    };
    let mut m = joint_name_map(&config);
    m.sort();
    assert_eq!(m, vec![(8, "left_shoulder_pitch".to_string()), (9, "waist_yaw".to_string())]);
}

#[test]
fn sequences_and_discovery() {
    assert_eq!(sequence_action("home_all"), SequenceAction::HomeAll);
    assert_eq!(sequence_action("wave"), SequenceAction::Wave);
    assert_eq!(sequence_action("dance"), SequenceAction::Unknown);
    let c = sequence_catalog();
    assert_eq!(c.len(), 3);
    assert_eq!(c[1].0, "home_all");
    assert_eq!(discovery_action(false, true), DiscoveryAction::Register);
    assert_eq!(discovery_action(true, false), DiscoveryAction::Remove);
    assert_eq!(discovery_action(true, true), DiscoveryAction::Keep);
    assert_eq!(discovery_action(false, false), DiscoveryAction::Keep);
}

#[test]
fn repl_words() {
    assert_eq!(repl_command("?"), ReplCommand::Help);
    assert_eq!(repl_command("en"), ReplCommand::Enable);
    assert_eq!(repl_command("vbus"), ReplCommand::Voltage);
    assert_eq!(repl_command("exit"), ReplCommand::Quit);
    assert_eq!(repl_command("fly"), ReplCommand::Unknown);
}
