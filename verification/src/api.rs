use vstd::prelude::*;
use vstd::string::*;

use crate::config::{
    arm_left_name, arm_right_name, assigned_ids, str_eq, waist_name, RobotConfig, SlotView,
};
use crate::text::{display_chars, display_name};

verus! {

/// Default and largest number of log lines one request returns.
pub const DEFAULT_LOG_LIMIT: usize = 200;
pub const MAX_LOG_LIMIT: usize = 500;

/// Number of log lines to return for a request asking for `requested`.
pub fn clamp_log_limit(requested: Option<usize>) -> (n: usize)
    ensures
        n == match requested {
            Some(k) => if k < MAX_LOG_LIMIT { k } else { MAX_LOG_LIMIT },
            None => DEFAULT_LOG_LIMIT,
        },
{
    let k = match requested {
        Some(k) => k,
        None => DEFAULT_LOG_LIMIT,
    };
    if k < MAX_LOG_LIMIT {
        k
    } else {
        MAX_LOG_LIMIT
    }
}

/// The arm side (`left`/`right`) a configuration section drives, or the
/// empty string for a section that is not an arm.
pub open spec fn side_of(section: Seq<char>) -> Seq<char> {
    if section == arm_left_name() {
        "left"@
    } else if section == arm_right_name() {
        "right"@
    } else {
        ""@
    }
}

/// The arm side a configuration section drives.
pub fn side_for_section(section: &str) -> (side: &'static str)
    ensures
        side@ == side_of(section@),
{
    if str_eq(section, "arm_left") {
        "left"
    } else if str_eq(section, "arm_right") {
        "right"
    } else {
        ""
    }
}

/// The short prefix naming a section in joint keys: `left`, `right`, or the
/// section's own name.
pub open spec fn section_prefix(section: Seq<char>) -> Seq<char> {
    if section == arm_left_name() {
        "left"@
    } else if section == arm_right_name() {
        "right"@
    } else {
        section
    }
}

/// The key naming a joint slot: prefix, `_`, joint name (e.g. `left_elbow_pitch`).
pub open spec fn joint_key(section: Seq<char>, joint: Seq<char>) -> Seq<char> {
    section_prefix(section) + "_"@ + joint
}

/// The key naming a joint slot.
pub fn joint_key_of(section: &str, joint: &str) -> (k: String)
    ensures
        k@ == joint_key(section@, joint@),
{
    let mut k = if str_eq(section, "arm_left") {
        String::from_str("left")
    } else if str_eq(section, "arm_right") {
        String::from_str("right")
    } else {
        section.to_owned()
    };
    k.append("_");
    k.append(joint);
    k
}

/// Human-readable name of a joint slot, e.g. `Left Shoulder Pitch`.
pub fn slot_display_name(section: &str, joint: &str) -> (name: String)
    ensures
        name@ == display_chars(joint_key(section@, joint@)),
{
    let key = joint_key_of(section, joint);
    display_name(key.as_str())
}

/// CAN ID to joint key, as built slot by slot with later slots overriding
/// earlier ones that hold the same ID.
pub open spec fn name_map(slots: Seq<SlotView>) -> Map<u8, Seq<char>>
    decreases slots.len(),
{
    if slots.len() == 0 {
        Map::empty()
    } else {
        let pre = name_map(slots.drop_last());
        let s = slots.last();
        match s.2 {
            Some(id) => pre.insert(id, joint_key(s.0, s.1)),
            None => pre,
        }
    }
}

/// The map's keys are exactly the assigned IDs.
pub proof fn lemma_name_map_domain(slots: Seq<SlotView>)
    ensures
        forall|id: u8| name_map(slots).contains_key(id) <==> assigned_ids(slots).contains(id),
    decreases slots.len(),
{
    if slots.len() > 0 {
        lemma_name_map_domain(slots.drop_last());
        let pre = assigned_ids(slots.drop_last());
        let pm = name_map(slots.drop_last());
        match slots.last().2 {
            Some(x) => {
                assert(assigned_ids(slots) == pre.push(x));
                assert(name_map(slots) == pm.insert(x, joint_key(slots.last().0, slots.last().1)));
                assert forall|id: u8| name_map(slots).contains_key(id) <==> assigned_ids(slots).contains(id) by {
                    if pre.push(x).contains(id) {
                        let k = choose|k: int| 0 <= k < pre.push(x).len() && pre.push(x)[k] == id;
                        if k < pre.len() {
                            assert(pre[k] == id);
                            assert(pre.contains(id));
                        }
                    }
                    if pre.contains(id) {
                        let k = choose|k: int| 0 <= k < pre.len() && pre[k] == id;
                        assert(pre.push(x)[k] == id);
                    }
                    if id == x {
                        assert(pre.push(x)[pre.len() as int] == id);
                    }
                }
            },
            None => {
                assert(assigned_ids(slots) == pre);
                assert(name_map(slots) == pm);
            },
        }
    }
}

/// Each name in the map is the key of the last slot holding its ID: the
/// arm prefix (`left` for `arm_left`, `right` for `arm_right`, otherwise
/// the section itself), `_`, and the joint's name.
pub proof fn lemma_name_map_names_last_holder(slots: Seq<SlotView>, id: u8)
    ensures
        name_map(slots).contains_key(id) ==> exists|j: int|
            #![trigger slots[j]]
            0 <= j < slots.len() && slots[j].2 == Some(id) && (forall|k: int| j < k < slots.len() ==> (#[trigger] slots[k]).2 != Some(id))
                && name_map(slots)[id] == (if slots[j].0 == "arm_left"@ {
                "left"@
            } else if slots[j].0 == "arm_right"@ {
                "right"@
            } else {
                slots[j].0
            }) + "_"@ + slots[j].1,
    decreases slots.len(),
{
    if slots.len() > 0 {
        let pre = slots.drop_last();
        let n = slots.len() as int;
        let s = slots.last();
        lemma_name_map_names_last_holder(pre, id);
        if name_map(slots).contains_key(id) {
            if s.2 == Some(id) {
                assert(slots[n - 1] == s);
                assert(name_map(slots)[id] == joint_key(s.0, s.1));
            } else {
                assert(name_map(slots)[id] == name_map(pre)[id]);
                assert(name_map(pre).contains_key(id));
                let j = choose|j: int|
                    #![trigger pre[j]]
                    0 <= j < pre.len() && pre[j].2 == Some(id) && (forall|k: int| j < k < pre.len() ==> (#[trigger] pre[k]).2 != Some(id))
                        && name_map(pre)[id] == (if pre[j].0 == "arm_left"@ {
                        "left"@
                    } else if pre[j].0 == "arm_right"@ {
                        "right"@
                    } else {
                        pre[j].0
                    }) + "_"@ + pre[j].1;
                assert(slots[j] == pre[j]);
                assert forall|k: int| j < k < slots.len() implies (#[trigger] slots[k]).2 != Some(id) by {
                    if k < n - 1 {
                        assert(slots[k] == pre[k]);
                    }
                }
            }
        }
    }
}

/// CAN ID to joint key (e.g. `8` to `left_shoulder_pitch`) for every
/// assigned joint; when several slots hold one ID, the last one names it.
/// Each ID appears once.
pub fn joint_name_map<J, A>(config: &RobotConfig<J, A>) -> (m: Vec<(u8, String)>)
    ensures
        forall|a: int, b: int| 0 <= a < b < m@.len() ==> (#[trigger] m@[a]).0 != (#[trigger] m@[b]).0,
        forall|k: int|
            0 <= k < m@.len() ==> name_map(config.slots()).contains_key((#[trigger] m@[k]).0) && name_map(
                config.slots(),
            )[m@[k].0] == m@[k].1@,
        forall|id: u8| #[trigger] name_map(config.slots()).contains_key(id) ==> exists|k: int| 0 <= k < m@.len() && m@[k].0 == id,
{
    let slots = config.joint_slots();
    let ghost sv = config.slots();
    let n: usize = slots.len();
    let mut m: Vec<(u8, String)> = Vec::new();
    let mut i: usize = 0;
    while i < n
        invariant
            i <= n,
            n == slots@.len(),
            sv == config.slots(),
            crate::config::slot_list_view(slots@) == sv,
            forall|a: int, b: int| 0 <= a < b < m@.len() ==> (#[trigger] m@[a]).0 != (#[trigger] m@[b]).0,
            forall|k: int|
                0 <= k < m@.len() ==> name_map(sv.take(i as int)).contains_key((#[trigger] m@[k]).0) && name_map(
                    sv.take(i as int),
                )[m@[k].0] == m@[k].1@,
            forall|id: u8| #[trigger] name_map(sv.take(i as int)).contains_key(id) ==> exists|k: int| 0 <= k < m@.len() && m@[k].0 == id,
        decreases n - i,
    {
        assert(sv.take(i + 1).drop_last() =~= sv.take(i as int));
        assert(sv.take(i + 1).last() == sv[i as int]);
        assert(sv[i as int] == (slots@[i as int].0@, slots@[i as int].1@, slots@[i as int].2));
        let ghost prev = name_map(sv.take(i as int));
        match slots[i].2 {
            Some(id) => {
                let key = joint_key_of(slots[i].0.as_str(), slots[i].1.as_str());
                assert(name_map(sv.take(i + 1)) == prev.insert(id, key@));
                let ghost before = m@;
                let mut j: usize = 0;
                let mut pos: Option<usize> = None;
                while j < m.len()
                    invariant
                        j <= m@.len(),
                        m@ == before,
                        match pos {
                            Some(p) => p < j && m@[p as int].0 == id,
                            None => forall|q: int| 0 <= q < j ==> (#[trigger] m@[q]).0 != id,
                        },
                    decreases m@.len() - j,
                {
                    if pos.is_none() && m[j].0 == id {
                        pos = Some(j);
                    }
                    j = j + 1;
                }
                match pos {
                    Some(p) => {
                        m.set(p, (id, key));
                        assert(m@ == before.update(p as int, (id, key)));
                        assert forall|id2: u8| #[trigger] name_map(sv.take(i + 1)).contains_key(id2) implies exists|k: int|
                            0 <= k < m@.len() && m@[k].0 == id2 by {
                            if id2 != id {
                                assert(prev.contains_key(id2));
                                let k = choose|k: int| 0 <= k < before.len() && before[k].0 == id2;
                                assert(m@[k].0 == id2);
                            } else {
                                assert(m@[p as int].0 == id2);
                            }
                        }
                    },
                    None => {
                        m.push((id, key));
                        assert(m@ == before.push((id, key)));
                        assert forall|id2: u8| #[trigger] name_map(sv.take(i + 1)).contains_key(id2) implies exists|k: int|
                            0 <= k < m@.len() && m@[k].0 == id2 by {
                            if id2 != id {
                                assert(prev.contains_key(id2));
                                let k = choose|k: int| 0 <= k < before.len() && before[k].0 == id2;
                                assert(m@[k].0 == id2);
                            } else {
                                assert(m@[before.len() as int].0 == id2);
                            }
                        }
                    },
                }
            },
            None => {
                assert(name_map(sv.take(i + 1)) == prev);
            },
        }
        i = i + 1;
    }
    assert(sv.take(n as int) =~= sv);
    m
}

/// What the API does for a named sequence.
#[derive(Debug, Clone, Copy, PartialEq, Eq, Structural)]
pub enum SequenceAction {
    /// Run startup recovery on every arm.
    HomeAll,
    /// Known but not available yet.
    Wave,
    /// No such sequence.
    Unknown,
}

/// The action for the sequence called `name`.
pub fn sequence_action(name: &str) -> (a: SequenceAction)
    ensures
        a == if name@ == "home_all"@ {
            SequenceAction::HomeAll
        } else if name@ == "wave"@ {
            SequenceAction::Wave
        } else {
            SequenceAction::Unknown
        },
{
    if str_eq(name, "home_all") {
        SequenceAction::HomeAll
    } else if str_eq(name, "wave") {
        SequenceAction::Wave
    } else {
        SequenceAction::Unknown
    }
}

/// The sequences the API lists: (name, description).
pub fn sequence_catalog() -> (c: Vec<(&'static str, &'static str)>)
    ensures
        c@.len() == 3,
        c@[0].0@ == "wave"@ && c@[0].1@ == "Single arm wave demonstration"@,
        c@[1].0@ == "home_all"@ && c@[1].1@ == "Return all joints to home position"@,
        c@[2].0@ == "sweep_test"@ && c@[2].1@
            == "Per-joint sweep — use POST /api/arms/{side}/joints/{joint}/sweep/start"@,
{
    let mut c: Vec<(&'static str, &'static str)> = Vec::new();
    c.push(("wave", "Single arm wave demonstration"));
    c.push(("home_all", "Return all joints to home position"));
    c.push(("sweep_test", "Per-joint sweep — use POST /api/arms/{side}/joints/{joint}/sweep/start"));
    c
}

/// The first and last CAN ID a bus discovery probes.
pub const DISCOVERY_FIRST_ID: u8 = 1;
pub const DISCOVERY_LAST_ID: u8 = 127;

/// What a discovery scan does with one CAN ID.
#[derive(Debug, Clone, Copy, PartialEq, Eq, Structural)]
pub enum DiscoveryAction {
    /// A motor answered that was not registered: register it.
    Register,
    /// A registered motor did not answer: disable and drop it.
    Remove,
    /// Nothing changes.
    Keep,
}

/// The discovery decision for one CAN ID.
pub fn discovery_action(registered: bool, responded: bool) -> (a: DiscoveryAction)
    ensures
        a == if responded && !registered {
            DiscoveryAction::Register
        } else if !responded && registered {
            DiscoveryAction::Remove
        } else {
            DiscoveryAction::Keep
        },
{
    if responded {
        if !registered {
            DiscoveryAction::Register
        } else {
            DiscoveryAction::Keep
        }
    } else if registered {
        DiscoveryAction::Remove
    } else {
        DiscoveryAction::Keep
    }
}

/// The key of a joint's sweep task: `side/joint`.
pub fn sweep_key(side: &str, joint: &str) -> (k: String)
    ensures
        k@ == side@ + "/"@ + joint@,
{
    let mut k = side.to_owned();
    k.append("/");
    k.append(joint);
    k
}

/// Commands of the interactive motor console.
#[derive(Debug, Clone, Copy, PartialEq, Eq, Structural)]
pub enum ReplCommand {
    Help,
    Debug,
    Enable,
    Disable,
    Status,
    Pos,
    Spin,
    Torque,
    Ctrl,
    Zero,
    Voltage,
    Params,
    Hold,
    Sweep,
    Quit,
    Unknown,
}

/// The console command a word names (each command has its aliases).
pub open spec fn repl_command_of(w: Seq<char>) -> ReplCommand {
    if w == "help"@ || w == "h"@ || w == "?"@ {
        ReplCommand::Help
    } else if w == "debug"@ || w == "d"@ {
        ReplCommand::Debug
    } else if w == "enable"@ || w == "en"@ {
        ReplCommand::Enable
    } else if w == "disable"@ || w == "dis"@ {
        ReplCommand::Disable
    } else if w == "status"@ || w == "s"@ {
        ReplCommand::Status
    } else if w == "pos"@ || w == "p"@ {
        ReplCommand::Pos
    } else if w == "spin"@ || w == "v"@ {
        ReplCommand::Spin
    } else if w == "torque"@ || w == "t"@ {
        ReplCommand::Torque
    } else if w == "ctrl"@ {
        ReplCommand::Ctrl
    } else if w == "zero"@ || w == "z"@ {
        ReplCommand::Zero
    } else if w == "voltage"@ || w == "vbus"@ {
        ReplCommand::Voltage
    } else if w == "params"@ || w == "readparams"@ {
        ReplCommand::Params
    } else if w == "hold"@ {
        ReplCommand::Hold
    } else if w == "sweep"@ {
        ReplCommand::Sweep
    } else if w == "quit"@ || w == "q"@ || w == "exit"@ {
        ReplCommand::Quit
    } else {
        ReplCommand::Unknown
    }
}

/// The console command a word names.
pub fn repl_command(w: &str) -> (c: ReplCommand)
    ensures
        c == repl_command_of(w@),
{
    if str_eq(w, "help") || str_eq(w, "h") || str_eq(w, "?") {
        ReplCommand::Help
    } else if str_eq(w, "debug") || str_eq(w, "d") {
        ReplCommand::Debug
    } else if str_eq(w, "enable") || str_eq(w, "en") {
        ReplCommand::Enable
    } else if str_eq(w, "disable") || str_eq(w, "dis") {
        ReplCommand::Disable
    } else if str_eq(w, "status") || str_eq(w, "s") {
        ReplCommand::Status
    } else if str_eq(w, "pos") || str_eq(w, "p") {
        ReplCommand::Pos
    } else if str_eq(w, "spin") || str_eq(w, "v") {
        ReplCommand::Spin
    } else if str_eq(w, "torque") || str_eq(w, "t") {
        ReplCommand::Torque
    } else if str_eq(w, "ctrl") {
        ReplCommand::Ctrl
    } else if str_eq(w, "zero") || str_eq(w, "z") {
        ReplCommand::Zero
    } else if str_eq(w, "voltage") || str_eq(w, "vbus") {
        ReplCommand::Voltage
    } else if str_eq(w, "params") || str_eq(w, "readparams") {
        ReplCommand::Params
    } else if str_eq(w, "hold") {
        ReplCommand::Hold
    } else if str_eq(w, "sweep") {
        ReplCommand::Sweep
    } else if str_eq(w, "quit") || str_eq(w, "q") || str_eq(w, "exit") {
        ReplCommand::Quit
    } else {
        ReplCommand::Unknown
    }
}

} // verus!
