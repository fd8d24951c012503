use vstd::prelude::*;
use vstd::string::*;

verus! {

/// CAN bus / adapter settings.
pub struct BusConfig {
    pub transport: String,
    pub port: String,
    pub socketcan_interface: Option<String>,
    pub baud: u32,
    pub can_bitrate: u32,
    pub host_id: u32,
}

/// Torso frame description.
pub struct TorsoConfig {
    pub frame: String,
    pub dimensions_mm: (u32, u32, u32),
}

/// Transport used when the configuration names none.
pub fn default_transport() -> (s: String)
    ensures
        s@ == "ch341"@,
{
    String::from_str("ch341")
}

/// Default control period of the gradual recovery phase, in milliseconds.
pub fn default_startup_step_period_ms() -> (v: u64)
    ensures
        v == 40,
{
    40
}

/// Default for the boolean switches that are on unless configured off.
pub fn default_true() -> (b: bool)
    ensures
        b,
{
    true
}

/// Default control period of the fast approach phase, in milliseconds.
pub fn default_approach_step_period_ms() -> (v: u64)
    ensures
        v == 25,
{
    25
}

/// Default number of consecutive blocked ticks that confirm a stall.
pub fn default_resistance_confirm_ticks() -> (v: u32)
    ensures
        v == 2,
{
    2
}

/// Default hold time after a stall, in milliseconds.
pub fn default_resistance_backoff_ms() -> (v: u64)
    ensures
        v == 1000,
{
    1000
}

/// Default number of control cycles over which gains ramp to settle gains.
pub fn default_settle_ramp_ticks() -> (v: u32)
    ensures
        v == 20,
{
    20
}

/// Why a CAN ID could not be assigned to a joint slot.
#[derive(Debug)]
pub enum ConfigError {
    /// The arm has no joint of this name.
    UnknownJoint(String),
    /// The named section (`arm_left`, `arm_right`, `waist`) is absent.
    SectionNotConfigured(String),
    /// The arm section (first) has no joint of this name (second).
    UnknownArmJoint(String, String),
    /// The waist section has no joint of this name.
    UnknownWaistJoint(String),
    /// No section has this name.
    UnknownSection(String),
}

/// A [`ConfigError`] with its names taken as character sequences.
pub ghost enum ConfigErrorView {
    UnknownJoint(Seq<char>),
    SectionNotConfigured(Seq<char>),
    UnknownArmJoint(Seq<char>, Seq<char>),
    UnknownWaistJoint(Seq<char>),
    UnknownSection(Seq<char>),
}

impl View for ConfigError {
    type V = ConfigErrorView;

    open spec fn view(&self) -> ConfigErrorView {
        match self {
            ConfigError::UnknownJoint(j) => ConfigErrorView::UnknownJoint(j@),
            ConfigError::SectionNotConfigured(s) => ConfigErrorView::SectionNotConfigured(s@),
            ConfigError::UnknownArmJoint(s, j) => ConfigErrorView::UnknownArmJoint(s@, j@),
            ConfigError::UnknownWaistJoint(j) => ConfigErrorView::UnknownWaistJoint(j@),
            ConfigError::UnknownSection(s) => ConfigErrorView::UnknownSection(s@),
        }
    }
}

/// The text of an error, as the control API reports it.
pub open spec fn config_error_text(e: ConfigErrorView) -> Seq<char> {
    match e {
        ConfigErrorView::UnknownJoint(j) => "unknown joint '"@ + j + "'"@,
        ConfigErrorView::SectionNotConfigured(s) => s + " section not configured"@,
        ConfigErrorView::UnknownArmJoint(s, j) => "unknown joint '"@ + j + "' in "@ + s + ": unknown joint '"@ + j + "'"@,
        ConfigErrorView::UnknownWaistJoint(j) => "unknown joint '"@ + j + "' in waist"@,
        ConfigErrorView::UnknownSection(s) => "unknown section '"@ + s + "'"@,
    }
}

impl ConfigError {
    /// The error's text (the arm case carries its cause after a colon).
    pub fn message(&self) -> (m: String)
        ensures
            m@ == config_error_text(self@),
    {
        match self {
            ConfigError::UnknownJoint(j) => {
                let mut m = String::from_str("unknown joint '");
                m.append(j.as_str());
                m.append("'");
                m
            },
            ConfigError::SectionNotConfigured(sec) => {
                let mut m = sec.clone();
                m.append(" section not configured");
                m
            },
            ConfigError::UnknownArmJoint(sec, j) => {
                let mut m = String::from_str("unknown joint '");
                m.append(j.as_str());
                m.append("' in ");
                m.append(sec.as_str());
                m.append(": unknown joint '");
                m.append(j.as_str());
                m.append("'");
                m
            },
            ConfigError::UnknownWaistJoint(j) => {
                let mut m = String::from_str("unknown joint '");
                m.append(j.as_str());
                m.append("' in waist");
                m
            },
            ConfigError::UnknownSection(sec) => {
                let mut m = String::from_str("unknown section '");
                m.append(sec.as_str());
                m.append("'");
                m
            },
        }
    }
}

/// One joint slot. `params` carries the joint's physical parameters (limits,
/// home angle, recovery tuning), which the bookkeeping here never reads.
pub struct JointConfig<J> {
    pub can_id: Option<u8>,
    pub actuator: String,
    pub straight_down_home_at_startup: bool,
    pub params: J,
}

/// The four joints of one arm, in their fixed order.
pub struct ArmConfig<J> {
    pub shoulder_pitch: JointConfig<J>,
    pub shoulder_roll: JointConfig<J>,
    pub upper_arm_yaw: JointConfig<J>,
    pub elbow_pitch: JointConfig<J>,
}

/// Name of the arm joint at position `i` (0 to 3).
pub open spec fn arm_joint_name(i: int) -> Seq<char> {
    if i == 0 {
        "shoulder_pitch"@
    } else if i == 1 {
        "shoulder_roll"@
    } else if i == 2 {
        "upper_arm_yaw"@
    } else {
        "elbow_pitch"@
    }
}

/// Position of the arm joint called `name`, or -1 when no arm joint has it.
pub open spec fn arm_joint_index(name: Seq<char>) -> int {
    if name == arm_joint_name(0) {
        0
    } else if name == arm_joint_name(1) {
        1
    } else if name == arm_joint_name(2) {
        2
    } else if name == arm_joint_name(3) {
        3
    } else {
        -1
    }
}

/// The joint with its CAN ID replaced.
pub open spec fn with_id<J>(j: JointConfig<J>, id: Option<u8>) -> JointConfig<J> {
    JointConfig { can_id: id, actuator: j.actuator, straight_down_home_at_startup: j.straight_down_home_at_startup, params: j.params }
}

/// The joint with `id` removed from it, if it held it.
pub open spec fn cleared_joint<J>(j: JointConfig<J>, id: u8) -> JointConfig<J> {
    if j.can_id == Some(id) {
        with_id(j, None)
    } else {
        j
    }
}

/// Appends the four slots of an arm, tagged with `section`.
fn push_arm_slots<J>(out: &mut Vec<(String, String, Option<u8>)>, section: &str, arm: &ArmConfig<J>)
    ensures
        slot_list_view(final(out)@) == slot_list_view(old(out)@) + slots_of(arm_entries(section@, Some(*arm))),
{
    let js = arm.joints();
    let ghost before = out@;
    let mut i: usize = 0;
    while i < 4
        invariant
            i <= 4,
            forall|m: int| 0 <= m < 4 ==> (#[trigger] js@[m]).0@ == arm_joint_name(m) && *js@[m].1 == arm.joint(m),
            out@.len() == before.len() + i,
            forall|k: int| 0 <= k < before.len() ==> #[trigger] out@[k] == before[k],
            forall|k: int| 0 <= k < i ==> (#[trigger] out@[before.len() + k]).0@ == section@
                && out@[before.len() + k].1@ == arm_joint_name(k) && out@[before.len() + k].2 == arm.joint(k).can_id,
        decreases 4 - i,
    {
        out.push((section.to_owned(), js[i].0.to_owned(), js[i].1.can_id));
        i = i + 1;
    }
    let ghost tail = slots_of(arm_entries(section@, Some(*arm)));
    assert forall|k: int| 0 <= k < 4 implies #[trigger] tail[k] == (section@, arm_joint_name(k), arm.joint(k).can_id) by {
        if k == 0 {
        } else if k == 1 {
        } else if k == 2 {
        } else {
        }
    }
    assert forall|k: int| 0 <= k < out@.len() implies #[trigger] slot_list_view(out@)[k] == (slot_list_view(before) + tail)[k] by {
        if k < before.len() {
            assert(out@[k] == before[k]);
        } else {
            let j = k - before.len();
            assert(out@[before.len() + j].0@ == section@);
        }
    }
    assert(slot_list_view(out@) =~= slot_list_view(before) + tail);
}

/// Compares two strings.
pub fn str_eq(a: &str, b: &str) -> (r: bool)
    ensures
        r == (a@ == b@),
{
    let x = a.to_owned();
    let y = b.to_owned();
    x == y
}

impl<J> ArmConfig<J> {
    /// The joint at position `i` (0 to 3).
    pub open spec fn joint(self, i: int) -> JointConfig<J> {
        if i == 0 {
            self.shoulder_pitch
        } else if i == 1 {
            self.shoulder_roll
        } else if i == 2 {
            self.upper_arm_yaw
        } else {
            self.elbow_pitch
        }
    }

    /// The arm with the joint at position `i` replaced.
    pub open spec fn with_joint(self, i: int, j: JointConfig<J>) -> ArmConfig<J> {
        ArmConfig {
            shoulder_pitch: if i == 0 { j } else { self.shoulder_pitch },
            shoulder_roll: if i == 1 { j } else { self.shoulder_roll },
            upper_arm_yaw: if i == 2 { j } else { self.upper_arm_yaw },
            elbow_pitch: if i == 3 { j } else { self.elbow_pitch },
        }
    }

    /// The arm with `id` removed from every joint that held it.
    pub open spec fn cleared(self, id: u8) -> ArmConfig<J> {
        ArmConfig {
            shoulder_pitch: cleared_joint(self.shoulder_pitch, id),
            shoulder_roll: cleared_joint(self.shoulder_roll, id),
            upper_arm_yaw: cleared_joint(self.upper_arm_yaw, id),
            elbow_pitch: cleared_joint(self.elbow_pitch, id),
        }
    }

    /// Positions (in joint order) of the first `n` joints that have a CAN ID.
    pub open spec fn active_upto(self, n: int) -> Seq<int>
        decreases n,
    {
        if n <= 0 {
            seq![]
        } else if self.joint(n - 1).can_id is Some {
            self.active_upto(n - 1).push(n - 1)
        } else {
            self.active_upto(n - 1)
        }
    }

    /// The joints that have a CAN ID assigned, in their fixed order.
    pub fn active_joints(&self) -> (r: Vec<(&'static str, &JointConfig<J>)>)
        ensures
            r@.len() == self.active_upto(4).len(),
            forall|k: int|
                0 <= k < r@.len() ==> (#[trigger] r@[k]).0@ == arm_joint_name(self.active_upto(4)[k])
                    && *r@[k].1 == self.joint(self.active_upto(4)[k]),
    {
        let all = self.joints();
        let mut out: Vec<(&'static str, &JointConfig<J>)> = Vec::new();
        let mut i: usize = 0;
        while i < 4
            invariant
                i <= 4,
                forall|m: int| 0 <= m < 4 ==> (#[trigger] all@[m]).0@ == arm_joint_name(m) && *all@[m].1 == self.joint(m),
                out@.len() == self.active_upto(i as int).len(),
                forall|k: int|
                    0 <= k < out@.len() ==> (#[trigger] out@[k]).0@ == arm_joint_name(self.active_upto(i as int)[k])
                        && *out@[k].1 == self.joint(self.active_upto(i as int)[k]),
            decreases 4 - i,
        {
            let entry = all[i];
            assert(entry == all@[i as int]);
            if entry.1.can_id.is_some() {
                out.push(entry);
            }
            i = i + 1;
        }
        out
    }

    /// Removes `can_id` from every joint of the arm that holds it.
    pub fn clear_can_id(&mut self, can_id: u8)
        ensures
            *final(self) == old(self).cleared(can_id),
    {
        if self.shoulder_pitch.can_id == Some(can_id) {
            self.shoulder_pitch.can_id = None;
        }
        if self.shoulder_roll.can_id == Some(can_id) {
            self.shoulder_roll.can_id = None;
        }
        if self.upper_arm_yaw.can_id == Some(can_id) {
            self.upper_arm_yaw.can_id = None;
        }
        if self.elbow_pitch.can_id == Some(can_id) {
            self.elbow_pitch.can_id = None;
        }
    }

    /// Sets the CAN ID of the joint called `joint_name`; fails, changing
    /// nothing, when the arm has no joint of that name.
    pub fn set_can_id(&mut self, joint_name: &str, can_id: Option<u8>) -> (r: Result<(), ConfigError>)
        ensures
            r is Ok <==> arm_joint_index(joint_name@) >= 0,
            r is Ok ==> *final(self) == old(self).with_joint(
                arm_joint_index(joint_name@),
                with_id(old(self).joint(arm_joint_index(joint_name@)), can_id),
            ),
            r matches Err(e) ==> *final(self) == *old(self) && e@ == ConfigErrorView::UnknownJoint(joint_name@),
    {
        if str_eq(joint_name, "shoulder_pitch") {
            self.shoulder_pitch.can_id = can_id;
            Ok(())
        } else if str_eq(joint_name, "shoulder_roll") {
            self.shoulder_roll.can_id = can_id;
            Ok(())
        } else if str_eq(joint_name, "upper_arm_yaw") {
            self.upper_arm_yaw.can_id = can_id;
            Ok(())
        } else if str_eq(joint_name, "elbow_pitch") {
            self.elbow_pitch.can_id = can_id;
            Ok(())
        } else {
            Err(ConfigError::UnknownJoint(joint_name.to_owned()))
        }
    }

    /// Mutable access to the joint at position `i` (0 to 3) of the fixed order.
    pub fn joint_mut(&mut self, i: usize) -> (j: &mut JointConfig<J>)
        requires
            i < 4,
        ensures
            *j == old(self).joint(i as int),
            *final(self) == old(self).with_joint(i as int, *final(j)),
    {
        if i == 0 {
            &mut self.shoulder_pitch
        } else if i == 1 {
            &mut self.shoulder_roll
        } else if i == 2 {
            &mut self.upper_arm_yaw
        } else {
            &mut self.elbow_pitch
        }
    }

    /// The joints as (name, joint) pairs in their fixed order.
    pub fn joints(&self) -> (r: [(&'static str, &JointConfig<J>); 4])
        ensures
            forall|i: int| 0 <= i < 4 ==> (#[trigger] r@[i]).0@ == arm_joint_name(i) && *r@[i].1 == self.joint(i),
    {
        [
            ("shoulder_pitch", &self.shoulder_pitch),
            ("shoulder_roll", &self.shoulder_roll),
            ("upper_arm_yaw", &self.upper_arm_yaw),
            ("elbow_pitch", &self.elbow_pitch),
        ]
    }
}


/// Whole robot configuration: bus settings, the actuator table (`A`, never
/// read here), both arms, the waist joints (name, joint) and the torso.
pub struct RobotConfig<J, A> {
    pub bus: BusConfig,
    pub actuators: A,
    pub arm_left: Option<ArmConfig<J>>,
    pub arm_right: Option<ArmConfig<J>>,
    pub waist: Option<Vec<(String, JointConfig<J>)>>,
    pub torso: Option<TorsoConfig>,
}

/// Section names.
pub open spec fn arm_left_name() -> Seq<char> {
    "arm_left"@
}

pub open spec fn arm_right_name() -> Seq<char> {
    "arm_right"@
}

pub open spec fn waist_name() -> Seq<char> {
    "waist"@
}

/// The (section, joint name, joint) entries of an optional arm.
pub open spec fn arm_entries<J>(section: Seq<char>, arm: Option<ArmConfig<J>>) -> Seq<(Seq<char>, Seq<char>, JointConfig<J>)> {
    match arm {
        Some(a) => seq![
            (section, arm_joint_name(0), a.joint(0)),
            (section, arm_joint_name(1), a.joint(1)),
            (section, arm_joint_name(2), a.joint(2)),
            (section, arm_joint_name(3), a.joint(3)),
        ],
        None => seq![],
    }
}

/// The (section, joint name, joint) entries of the optional waist.
pub open spec fn waist_entries<J>(w: Option<Vec<(String, JointConfig<J>)>>) -> Seq<(Seq<char>, Seq<char>, JointConfig<J>)> {
    match w {
        Some(v) => v@.map_values(|e: (String, JointConfig<J>)| (waist_name(), e.0@, e.1)),
        None => seq![],
    }
}

/// The waist with `id` removed from every joint that held it.
pub open spec fn cleared_waist<J>(w: Seq<(String, JointConfig<J>)>, id: u8) -> Seq<(String, JointConfig<J>)> {
    w.map_values(|e: (String, JointConfig<J>)| (e.0, cleared_joint(e.1, id)))
}

/// An optional arm with `id` removed from its joints.
pub open spec fn cleared_arm<J>(a: Option<ArmConfig<J>>, id: u8) -> Option<ArmConfig<J>> {
    match a {
        Some(x) => Some(x.cleared(id)),
        None => None,
    }
}

/// Position of the first waist entry named `name` at or after `from`, or -1.
pub open spec fn name_index_from<J>(w: Seq<(String, JointConfig<J>)>, name: Seq<char>, from: nat) -> int
    decreases w.len() - from,
{
    if from >= w.len() {
        -1
    } else if w[from as int].0@ == name {
        from as int
    } else {
        name_index_from(w, name, from + 1)
    }
}

/// Position of the first waist entry named `name`, or -1.
pub open spec fn waist_index<J>(w: Seq<(String, JointConfig<J>)>, name: Seq<char>) -> int {
    name_index_from(w, name, 0)
}

/// The search result lies in range, names `name`, and no earlier entry does.
pub proof fn lemma_name_index_from<J>(w: Seq<(String, JointConfig<J>)>, name: Seq<char>, from: nat)
    ensures
        name_index_from(w, name, from) == -1 || (from <= name_index_from(w, name, from) < w.len()
            && w[name_index_from(w, name, from)].0@ == name),
        forall|j: int| from <= j < w.len() && (name_index_from(w, name, from) == -1 || j < name_index_from(w, name, from))
            ==> #[trigger] w[j].0@ != name,
    decreases w.len() - from,
{
    if from < w.len() && w[from as int].0@ != name {
        lemma_name_index_from(w, name, from + 1);
    }
}

/// Clearing a CAN ID leaves the waist's names, hence its name search, as is.
pub proof fn lemma_cleared_waist_index<J>(w: Seq<(String, JointConfig<J>)>, id: u8, name: Seq<char>, from: nat)
    ensures
        name_index_from(cleared_waist(w, id), name, from) == name_index_from(w, name, from),
    decreases w.len() - from,
{
    if from < w.len() {
        lemma_cleared_waist_index(w, id, name, from + 1);
    }
}

/// Finds the first waist entry named `name`.
pub fn waist_position<J>(w: &Vec<(String, JointConfig<J>)>, name: &str) -> (r: Option<usize>)
    ensures
        match r {
            Some(k) => k as int == waist_index(w@, name@),
            None => waist_index(w@, name@) == -1,
        },
        waist_index(w@, name@) == -1 || (0 <= waist_index(w@, name@) < w@.len()
            && w@[waist_index(w@, name@)].0@ == name@),
{
    proof {
        lemma_name_index_from(w@, name@, 0);
    }
    let target = name.to_owned();
    let n: usize = w.len();
    let mut i: usize = 0;
    while i < n
        invariant
            i <= n,
            n == w@.len(),
            target@ == name@,
            name_index_from(w@, name@, i as nat) == waist_index(w@, name@),
        decreases n - i,
    {
        if w[i].0 == target {
            return Some(i);
        }
        i = i + 1;
    }
    None
}

/// The CAN IDs assigned in `slots`, in slot order.
pub open spec fn assigned_ids(slots: Seq<SlotView>) -> Seq<u8>
    decreases slots.len(),
{
    if slots.len() == 0 {
        seq![]
    } else {
        let pre = assigned_ids(slots.drop_last());
        match slots.last().2 {
            Some(id) => pre.push(id),
            None => pre,
        }
    }
}

/// The (CAN ID, joint) pairs of the joints in `e` that have an ID, in order.
pub open spec fn assigned_joints_of<J>(e: Seq<(Seq<char>, Seq<char>, JointConfig<J>)>) -> Seq<(u8, JointConfig<J>)>
    decreases e.len(),
{
    if e.len() == 0 {
        seq![]
    } else {
        let pre = assigned_joints_of(e.drop_last());
        match e.last().2.can_id {
            Some(id) => pre.push((id, e.last().2)),
            None => pre,
        }
    }
}

/// Pairs of an ID and a borrowed joint, taken by value.
pub open spec fn id_joint_view<J>(v: Seq<(u8, &JointConfig<J>)>) -> Seq<(u8, JointConfig<J>)> {
    v.map_values(|p: (u8, &JointConfig<J>)| (p.0, *p.1))
}

/// The joint at `entries[k]` is the first one that holds `id`.
pub open spec fn first_holder<J>(entries: Seq<(Seq<char>, Seq<char>, JointConfig<J>)>, k: int, id: u8) -> bool {
    &&& 0 <= k < entries.len()
    &&& entries[k].2.can_id == Some(id)
    &&& forall|m: int| 0 <= m < k ==> (#[trigger] entries[m]).2.can_id != Some(id)
}

/// The (section, joint name, CAN ID) slots of some entries.
pub open spec fn slots_of<J>(entries: Seq<(Seq<char>, Seq<char>, JointConfig<J>)>) -> Seq<SlotView> {
    entries.map_values(|e: (Seq<char>, Seq<char>, JointConfig<J>)| (e.0, e.1, e.2.can_id))
}

/// A slot list taken by the views of its strings.
pub open spec fn slot_list_view(v: Seq<(String, String, Option<u8>)>) -> Seq<SlotView> {
    v.map_values(|t: (String, String, Option<u8>)| (t.0@, t.1@, t.2))
}

/// A slot: (section, joint name, CAN ID).
pub type SlotView = (Seq<char>, Seq<char>, Option<u8>);

impl<J, A> RobotConfig<J, A> {
    /// Every joint with its section and name, in slot order: left arm,
    /// right arm, then the waist in its stored order.
    pub open spec fn entries(self) -> Seq<(Seq<char>, Seq<char>, JointConfig<J>)> {
        arm_entries(arm_left_name(), self.arm_left) + arm_entries(arm_right_name(), self.arm_right)
            + waist_entries(self.waist)
    }

    /// Every joint slot with its CAN ID, in slot order.
    pub open spec fn slots(self) -> Seq<SlotView> {
        slots_of(self.entries())
    }

    /// `self` is `old` with `id` removed from every joint, all else equal.
    pub open spec fn cleared_from(self, old: Self, id: u8) -> bool {
        &&& self.bus == old.bus
        &&& self.actuators == old.actuators
        &&& self.torso == old.torso
        &&& self.arm_left == cleared_arm(old.arm_left, id)
        &&& self.arm_right == cleared_arm(old.arm_right, id)
        &&& (self.waist is Some <==> old.waist is Some)
        &&& self.waist is Some ==> self.waist->0@ == cleared_waist(old.waist->0@, id)
    }

    /// Whether `section` has a joint called `joint`.
    pub open spec fn has_slot(self, section: Seq<char>, joint: Seq<char>) -> bool {
        if section == arm_left_name() {
            self.arm_left is Some && arm_joint_index(joint) >= 0
        } else if section == arm_right_name() {
            self.arm_right is Some && arm_joint_index(joint) >= 0
        } else if section == waist_name() {
            self.waist is Some && waist_index(self.waist->0@, joint) >= 0
        } else {
            false
        }
    }

    /// The CAN ID held by the slot `section`/`joint`, or `None` when the slot
    /// is unassigned or does not exist.
    pub open spec fn slot_can_id(self, section: Seq<char>, joint: Seq<char>) -> Option<u8> {
        if !self.has_slot(section, joint) {
            None
        } else if section == arm_left_name() {
            self.arm_left->0.joint(arm_joint_index(joint)).can_id
        } else if section == arm_right_name() {
            self.arm_right->0.joint(arm_joint_index(joint)).can_id
        } else {
            self.waist->0@[waist_index(self.waist->0@, joint)].1.can_id
        }
    }

    /// `self` is `old` with `id` cleared everywhere and then given to the
    /// slot `section`/`joint` (which exists in `old`).
    pub open spec fn assigned_from(self, old: Self, section: Seq<char>, joint: Seq<char>, id: u8) -> bool {
        let left = cleared_arm(old.arm_left, id);
        let right = cleared_arm(old.arm_right, id);
        let k = arm_joint_index(joint);
        &&& self.bus == old.bus
        &&& self.actuators == old.actuators
        &&& self.torso == old.torso
        &&& (self.waist is Some <==> old.waist is Some)
        &&& if section == arm_left_name() {
            &&& self.arm_left == Some(left->0.with_joint(k, with_id(left->0.joint(k), Some(id))))
            &&& self.arm_right == right
            &&& self.waist is Some ==> self.waist->0@ == cleared_waist(old.waist->0@, id)
        } else if section == arm_right_name() {
            &&& self.arm_left == left
            &&& self.arm_right == Some(right->0.with_joint(k, with_id(right->0.joint(k), Some(id))))
            &&& self.waist is Some ==> self.waist->0@ == cleared_waist(old.waist->0@, id)
        } else {
            let cw = cleared_waist(old.waist->0@, id);
            let wk = waist_index(old.waist->0@, joint);
            &&& self.arm_left == left
            &&& self.arm_right == right
            &&& self.waist->0@ == cw.update(wk, (cw[wk].0, with_id(cw[wk].1, Some(id))))
        }
    }

    /// The error `assign_can_id` reports when the slot does not exist.
    pub open spec fn missing_slot_error(self, section: Seq<char>, joint: Seq<char>) -> ConfigErrorView {
        if section == arm_left_name() {
            if self.arm_left is None {
                ConfigErrorView::SectionNotConfigured(arm_left_name())
            } else {
                ConfigErrorView::UnknownArmJoint(arm_left_name(), joint)
            }
        } else if section == arm_right_name() {
            if self.arm_right is None {
                ConfigErrorView::SectionNotConfigured(arm_right_name())
            } else {
                ConfigErrorView::UnknownArmJoint(arm_right_name(), joint)
            }
        } else if section == waist_name() {
            if self.waist is None {
                ConfigErrorView::SectionNotConfigured(waist_name())
            } else {
                ConfigErrorView::UnknownWaistJoint(joint)
            }
        } else {
            ConfigErrorView::UnknownSection(section)
        }
    }

    /// Clears any existing assignment of `can_id` across all sections.
    pub fn clear_can_id(&mut self, can_id: u8)
        ensures
            final(self).cleared_from(*old(self), can_id),
    {
        if let Some(arm) = &mut self.arm_left {
            arm.clear_can_id(can_id);
        }
        if let Some(arm) = &mut self.arm_right {
            arm.clear_can_id(can_id);
        }
        if let Some(waist) = &mut self.waist {
            let ghost w0 = waist@;
            let n: usize = waist.len();
            let mut i: usize = 0;
            while i < n
                invariant
                    i <= n,
                    n == w0.len(),
                    waist@.len() == n,
                    forall|k: int| 0 <= k < i ==> #[trigger] waist@[k] == (w0[k].0, cleared_joint(w0[k].1, can_id)),
                    forall|k: int| i <= k < n ==> #[trigger] waist@[k] == w0[k],
                decreases n - i,
            {
                if waist[i].1.can_id == Some(can_id) {
                    waist[i].1.can_id = None;
                }
                i = i + 1;
            }
            assert(waist@ =~= cleared_waist(w0, can_id));
        }
    }

    /// CAN IDs assigned to joints in this config, in slot order (the IDs for
    /// which motor handles are registered at startup).
    pub fn assigned_can_ids(&self) -> (ids: Vec<u8>)
        ensures
            ids@ == assigned_ids(self.slots()),
    {
        let slots = self.joint_slots();
        let n: usize = slots.len();
        let mut ids: Vec<u8> = Vec::new();
        let mut i: usize = 0;
        while i < n
            invariant
                i <= n,
                n == slots@.len(),
                slot_list_view(slots@) == self.slots(),
                ids@ == assigned_ids(self.slots().take(i as int)),
            decreases n - i,
        {
            assert(self.slots().take(i as int + 1).drop_last() =~= self.slots().take(i as int));
            assert(self.slots()[i as int].2 == slots@[i as int].2);
            match slots[i].2 {
                Some(id) => ids.push(id),
                None => {},
            }
            i = i + 1;
        }
        assert(self.slots().take(n as int) =~= self.slots());
        ids
    }

    /// Every joint slot as (section, joint name, CAN ID), in slot order.
    pub fn joint_slots(&self) -> (out: Vec<(String, String, Option<u8>)>)
        ensures
            slot_list_view(out@) == self.slots(),
    {
        let mut out: Vec<(String, String, Option<u8>)> = Vec::new();
        let ghost left = slots_of(arm_entries(arm_left_name(), self.arm_left));
        let ghost right = slots_of(arm_entries(arm_right_name(), self.arm_right));
        let ghost waist = slots_of(waist_entries(self.waist));
        assert(self.slots() =~= left + right + waist);
        if let Some(arm) = &self.arm_left {
            push_arm_slots(&mut out, "arm_left", arm);
        }
        assert(slot_list_view(out@) =~= left);
        if let Some(arm) = &self.arm_right {
            push_arm_slots(&mut out, "arm_right", arm);
        }
        assert(slot_list_view(out@) =~= left + right);
        if let Some(w) = &self.waist {
            let ghost before = out@;
            let n: usize = w.len();
            let mut i: usize = 0;
            while i < n
                invariant
                    i <= n,
                    n == w@.len(),
                    waist == slots_of(waist_entries(self.waist)),
                    self.waist == Some(*w),
                    slot_list_view(before) == left + right,
                    out@.len() == before.len() + i,
                    forall|k: int| 0 <= k < before.len() ==> #[trigger] out@[k] == before[k],
                    forall|k: int| 0 <= k < i ==> (#[trigger] out@[before.len() + k]).0@ == waist_name()
                        && out@[before.len() + k].1@ == w@[k].0@ && out@[before.len() + k].2 == w@[k].1.can_id,
                decreases n - i,
            {
                out.push((String::from_str("waist"), w[i].0.clone(), w[i].1.can_id));
                i = i + 1;
            }
            assert forall|k: int| 0 <= k < n implies #[trigger] waist[k] == (waist_name(), w@[k].0@, w@[k].1.can_id) by {
                assert(waist_entries(self.waist)[k] == (waist_name(), w@[k].0@, w@[k].1));
            }
            assert forall|k: int| 0 <= k < out@.len() implies #[trigger] slot_list_view(out@)[k] == (slot_list_view(before) + waist)[k] by {
                if k < before.len() {
                    assert(out@[k] == before[k]);
                } else {
                    let j = k - before.len();
                    assert(out@[before.len() + j].0@ == waist_name());
                }
            }
            assert(slot_list_view(out@) =~= slot_list_view(before) + waist);
            assert(slot_list_view(out@) =~= left + right + waist);
        } else {
            assert(waist =~= seq![]);
            assert(slot_list_view(out@) =~= left + right + waist);
        }
        out
    }

    /// Every joint that has a CAN ID, with that ID, in slot order.
    pub fn assigned_joints(&self) -> (r: Vec<(u8, &JointConfig<J>)>)
        ensures
            id_joint_view(r@) == assigned_joints_of(self.entries()),
    {
        let ghost e = self.entries();
        let ghost left = arm_entries(arm_left_name(), self.arm_left);
        let ghost right = arm_entries(arm_right_name(), self.arm_right);
        assert(e =~= left + right + waist_entries(self.waist));
        let mut out: Vec<(u8, &JointConfig<J>)> = Vec::new();
        assert(e.take(0) =~= seq![]);
        assert(id_joint_view(out@) =~= assigned_joints_of(e.take(0)));
        let mut off: usize = 0;
        if let Some(arm) = &self.arm_left {
            let js = arm.joints();
            let mut i: usize = 0;
            while i < 4
                invariant
                    i <= 4,
                    off == 0,
                    left == arm_entries(arm_left_name(), self.arm_left),
                    self.arm_left == Some(*arm),
                    e == self.entries(),
                    e =~= left + right + waist_entries(self.waist),
                    forall|m: int| 0 <= m < 4 ==> (#[trigger] js@[m]).0@ == arm_joint_name(m) && *js@[m].1 == arm.joint(m),
                    id_joint_view(out@) == assigned_joints_of(e.take(off + i)),
                decreases 4 - i,
            {
                assert(left[i as int] == (arm_left_name(), arm_joint_name(i as int), arm.joint(i as int))) by {
                    if i == 0 {} else if i == 1 {} else if i == 2 {} else {}
                }
                assert(e[i as int] == left[i as int]);
                assert(e.take(i + 1).drop_last() =~= e.take(i as int));
                let ghost before = out@;
                match js[i].1.can_id {
                    Some(id) => {
                        out.push((id, js[i].1));
                        assert(id_joint_view(out@) =~= id_joint_view(before).push((id, *js@[i as int].1)));
                    },
                    None => {},
                }
                i = i + 1;
            }
            off = 4;
        }
        assert(off == left.len());
        if let Some(arm) = &self.arm_right {
            let js = arm.joints();
            let mut i: usize = 0;
            while i < 4
                invariant
                    i <= 4,
                    off == left.len(),
                    left == arm_entries(arm_left_name(), self.arm_left),
                    right == arm_entries(arm_right_name(), self.arm_right),
                    self.arm_right == Some(*arm),
                    e == self.entries(),
                    e =~= left + right + waist_entries(self.waist),
                    forall|m: int| 0 <= m < 4 ==> (#[trigger] js@[m]).0@ == arm_joint_name(m) && *js@[m].1 == arm.joint(m),
                    id_joint_view(out@) == assigned_joints_of(e.take(off + i)),
                decreases 4 - i,
            {
                assert(right[i as int] == (arm_right_name(), arm_joint_name(i as int), arm.joint(i as int))) by {
                    if i == 0 {} else if i == 1 {} else if i == 2 {} else {}
                }
                assert(e[off + i as int] == right[i as int]);
                assert(e.take(off + i + 1).drop_last() =~= e.take(off + i as int));
                let ghost before = out@;
                match js[i].1.can_id {
                    Some(id) => {
                        out.push((id, js[i].1));
                        assert(id_joint_view(out@) =~= id_joint_view(before).push((id, *js@[i as int].1)));
                    },
                    None => {},
                }
                i = i + 1;
            }
            off = off + 4;
        }
        assert(off == left.len() + right.len());
        if let Some(w) = &self.waist {
            let n: usize = w.len();
            let mut i: usize = 0;
            while i < n
                invariant
                    i <= n,
                    n == w@.len(),
                    off == left.len() + right.len(),
                    left == arm_entries(arm_left_name(), self.arm_left),
                    right == arm_entries(arm_right_name(), self.arm_right),
                    self.waist == Some(*w),
                    e == self.entries(),
                    e =~= left + right + waist_entries(self.waist),
                    id_joint_view(out@) == assigned_joints_of(e.take(off + i)),
                decreases n - i,
            {
                assert(e[off + i as int] == (waist_name(), w@[i as int].0@, w@[i as int].1));
                assert(e.take(off + i + 1).drop_last() =~= e.take(off + i as int));
                let ghost before = out@;
                match w[i].1.can_id {
                    Some(id) => {
                        out.push((id, &w[i].1));
                        assert(id_joint_view(out@) =~= id_joint_view(before).push((id, w@[i as int].1)));
                    },
                    None => {},
                }
                i = i + 1;
            }
            assert(e.take(off + n) =~= e);
        } else {
            assert(e.take(off as int) =~= e);
        }
        out
    }

    /// The first joint, in slot order, that holds `can_id`.
    pub fn find_joint(&self, can_id: u8) -> (r: Option<&JointConfig<J>>)
        ensures
            match r {
                Some(j) => exists|k: int| #[trigger] first_holder(self.entries(), k, can_id) && *j == self.entries()[k].2,
                None => forall|k: int| 0 <= k < self.entries().len() ==> (#[trigger] self.entries()[k]).2.can_id != Some(can_id),
            },
    {
        let ghost e = self.entries();
        let ghost left = arm_entries(arm_left_name(), self.arm_left);
        let ghost right = arm_entries(arm_right_name(), self.arm_right);
        assert(e =~= left + right + waist_entries(self.waist));
        if let Some(arm) = &self.arm_left {
            let js = arm.joints();
            let mut i: usize = 0;
            while i < 4
                invariant
                    i <= 4,
                    self.arm_left == Some(*arm),
                    e == self.entries(),
                    forall|m: int| 0 <= m < 4 ==> (#[trigger] js@[m]).0@ == arm_joint_name(m) && *js@[m].1 == arm.joint(m),
                    forall|m: int| 0 <= m < i ==> (#[trigger] e[m]).2.can_id != Some(can_id),
                decreases 4 - i,
            {
                if js[i].1.can_id == Some(can_id) {
                    assert(first_holder(e, i as int, can_id));
                    return Some(js[i].1);
                }
                i = i + 1;
            }
        }
        let off: usize = if self.arm_left.is_some() { 4 } else { 0 };
        assert(off == left.len());
        if let Some(arm) = &self.arm_right {
            let js = arm.joints();
            let mut i: usize = 0;
            while i < 4
                invariant
                    i <= 4,
                    off == left.len(),
                    left == arm_entries(arm_left_name(), self.arm_left),
                    right == arm_entries(arm_right_name(), self.arm_right),
                    self.arm_right == Some(*arm),
                    e == self.entries(),
                    e =~= left + right + waist_entries(self.waist),
                    forall|m: int| 0 <= m < 4 ==> (#[trigger] js@[m]).0@ == arm_joint_name(m) && *js@[m].1 == arm.joint(m),
                    forall|m: int| 0 <= m < off + i ==> (#[trigger] e[m]).2.can_id != Some(can_id),
                decreases 4 - i,
            {
                assert(right[i as int] == (arm_right_name(), arm_joint_name(i as int), arm.joint(i as int))) by {
                    if i == 0 {
                    } else if i == 1 {
                    } else if i == 2 {
                    } else {
                    }
                }
                if js[i].1.can_id == Some(can_id) {
                    assert(e[off + i as int] == right[i as int]);
                    assert(first_holder(e, off + i as int, can_id));
                    return Some(js[i].1);
                }
                assert(e[off + i as int] == right[i as int]);
                i = i + 1;
            }
        }
        let off2: usize = off + if self.arm_right.is_some() { 4usize } else { 0usize };
        assert(off2 == left.len() + right.len());
        if let Some(w) = &self.waist {
            let n: usize = w.len();
            let mut i: usize = 0;
            while i < n
                invariant
                    i <= n,
                    n == w@.len(),
                    off2 == left.len() + right.len(),
                    left == arm_entries(arm_left_name(), self.arm_left),
                    right == arm_entries(arm_right_name(), self.arm_right),
                    self.waist == Some(*w),
                    e == self.entries(),
                    e =~= left + right + waist_entries(self.waist),
                    forall|m: int| 0 <= m < off2 + i ==> (#[trigger] e[m]).2.can_id != Some(can_id),
                decreases n - i,
            {
                assert(e[off2 + i as int] == (waist_name(), w@[i as int].0@, w@[i as int].1));
                if w[i].1.can_id == Some(can_id) {
                    assert(first_holder(e, off2 + i as int, can_id));
                    return Some(&w[i].1);
                }
                i = i + 1;
            }
        }
        None
    }

    /// Assigns `can_id` to the slot `section`/`joint`, first clearing it from
    /// every slot that held it. The clearing happens even when the slot does
    /// not exist, in which case an error names what is missing.
    pub fn assign_can_id(&mut self, section: &str, joint: &str, can_id: u8) -> (r: Result<(), ConfigError>)
        ensures
            r is Ok <==> old(self).has_slot(section@, joint@),
            r is Ok ==> final(self).assigned_from(*old(self), section@, joint@, can_id),
            r matches Err(e) ==> final(self).cleared_from(*old(self), can_id)
                && e@ == old(self).missing_slot_error(section@, joint@),
    {
        self.clear_can_id(can_id);
        if str_eq(section, "arm_left") {
            match &mut self.arm_left {
                Some(arm) => match arm.set_can_id(joint, Some(can_id)) {
                    Ok(()) => Ok(()),
                    Err(_) => Err(ConfigError::UnknownArmJoint(String::from_str("arm_left"), joint.to_owned())),
                },
                None => Err(ConfigError::SectionNotConfigured(String::from_str("arm_left"))),
            }
        } else if str_eq(section, "arm_right") {
            match &mut self.arm_right {
                Some(arm) => match arm.set_can_id(joint, Some(can_id)) {
                    Ok(()) => Ok(()),
                    Err(_) => Err(ConfigError::UnknownArmJoint(String::from_str("arm_right"), joint.to_owned())),
                },
                None => Err(ConfigError::SectionNotConfigured(String::from_str("arm_right"))),
            }
        } else if str_eq(section, "waist") {
            match &mut self.waist {
                Some(waist) => {
                    let ghost cw = waist@;
                    proof {
                        lemma_cleared_waist_index(old(self).waist->0@, can_id, joint@, 0);
                    }
                    match waist_position(waist, joint) {
                        Some(k) => {
                            waist[k].1.can_id = Some(can_id);
                            assert(waist@ =~= cw.update(k as int, (cw[k as int].0, with_id(cw[k as int].1, Some(can_id)))));
                            Ok(())
                        },
                        None => Err(ConfigError::UnknownWaistJoint(joint.to_owned())),
                    }
                },
                None => Err(ConfigError::SectionNotConfigured(String::from_str("waist"))),
            }
        } else {
            Err(ConfigError::UnknownSection(section.to_owned()))
        }
    }
}


/// A configuration section.
#[derive(Debug, Clone, Copy, PartialEq, Eq, Structural)]
pub enum Section {
    ArmLeft,
    ArmRight,
    Waist,
}

/// A joint slot located in a configuration: its section and its position
/// in that section (arm joint order, or waist entry).
#[derive(Debug, Clone, Copy, PartialEq, Eq, Structural)]
pub struct SlotRef {
    pub section: Section,
    pub index: usize,
}

impl<J, A> RobotConfig<J, A> {
    /// `r` names an existing slot.
    pub open spec fn valid_ref(self, r: SlotRef) -> bool {
        match r.section {
            Section::ArmLeft => self.arm_left is Some && r.index < 4,
            Section::ArmRight => self.arm_right is Some && r.index < 4,
            Section::Waist => self.waist is Some && r.index < self.waist->0@.len(),
        }
    }

    /// The joint in slot `r`.
    pub open spec fn slot_joint(self, r: SlotRef) -> JointConfig<J> {
        match r.section {
            Section::ArmLeft => self.arm_left->0.joint(r.index as int),
            Section::ArmRight => self.arm_right->0.joint(r.index as int),
            Section::Waist => self.waist->0@[r.index as int].1,
        }
    }

    /// `self` is `old` with the joint in slot `r` replaced by `j`.
    pub open spec fn replaced_slot(self, old: Self, r: SlotRef, j: JointConfig<J>) -> bool {
        &&& self.bus == old.bus
        &&& self.actuators == old.actuators
        &&& self.torso == old.torso
        &&& (self.waist is Some <==> old.waist is Some)
        &&& match r.section {
            Section::ArmLeft => {
                &&& self.arm_left == Some(old.arm_left->0.with_joint(r.index as int, j))
                &&& self.arm_right == old.arm_right
                &&& self.waist == old.waist
            },
            Section::ArmRight => {
                &&& self.arm_left == old.arm_left
                &&& self.arm_right == Some(old.arm_right->0.with_joint(r.index as int, j))
                &&& self.waist == old.waist
            },
            Section::Waist => {
                &&& self.arm_left == old.arm_left
                &&& self.arm_right == old.arm_right
                &&& self.waist->0@ == old.waist->0@.update(r.index as int, (old.waist->0@[r.index as int].0, j))
            },
        }
    }

    /// Finds the slot `section`/`joint`.
    pub fn locate_slot(&self, section: &str, joint: &str) -> (r: Option<SlotRef>)
        ensures
            r is Some <==> self.has_slot(section@, joint@),
            r matches Some(sr) ==> self.valid_ref(sr) && self.slot_joint(sr).can_id == self.slot_can_id(section@, joint@)
                && sr.section == (if section@ == arm_left_name() {
                Section::ArmLeft
            } else if section@ == arm_right_name() {
                Section::ArmRight
            } else {
                Section::Waist
            }) && sr.index == (if section@ == arm_left_name() || section@ == arm_right_name() {
                arm_joint_index(joint@)
            } else {
                waist_index(self.waist->0@, joint@)
            }),
    {
        if str_eq(section, "arm_left") {
            if self.arm_left.is_none() {
                return None;
            }
            match arm_index_of(joint) {
                Some(i) => Some(SlotRef { section: Section::ArmLeft, index: i }),
                None => None,
            }
        } else if str_eq(section, "arm_right") {
            if self.arm_right.is_none() {
                return None;
            }
            match arm_index_of(joint) {
                Some(i) => Some(SlotRef { section: Section::ArmRight, index: i }),
                None => None,
            }
        } else if str_eq(section, "waist") {
            match &self.waist {
                Some(w) => match waist_position(w, joint) {
                    Some(k) => Some(SlotRef { section: Section::Waist, index: k }),
                    None => None,
                },
                None => None,
            }
        } else {
            None
        }
    }

    /// Mutable access to the joint in slot `r`.
    pub fn slot_mut(&mut self, r: SlotRef) -> (j: &mut JointConfig<J>)
        requires
            old(self).valid_ref(r),
        ensures
            *j == old(self).slot_joint(r),
            final(self).replaced_slot(*old(self), r, *final(j)),
    {
        match r.section {
            Section::ArmLeft => match &mut self.arm_left {
                Some(arm) => arm.joint_mut(r.index),
                None => vstd::pervasive::unreached(),
            },
            Section::ArmRight => match &mut self.arm_right {
                Some(arm) => arm.joint_mut(r.index),
                None => vstd::pervasive::unreached(),
            },
            Section::Waist => match &mut self.waist {
                Some(w) => &mut w[r.index].1,
                None => vstd::pervasive::unreached(),
            },
        }
    }
}

/// Position of the arm joint called `joint`.
fn arm_index_of(joint: &str) -> (r: Option<usize>)
    ensures
        match r {
            Some(i) => i as int == arm_joint_index(joint@) && i < 4,
            None => arm_joint_index(joint@) == -1,
        },
{
    if str_eq(joint, "shoulder_pitch") {
        Some(0)
    } else if str_eq(joint, "shoulder_roll") {
        Some(1)
    } else if str_eq(joint, "upper_arm_yaw") {
        Some(2)
    } else if str_eq(joint, "elbow_pitch") {
        Some(3)
    } else {
        None
    }
}

/// The CAN ID of the slot `section`/`joint`, or `None` when the slot is
/// unassigned or does not exist.
pub fn can_id_for_joint<J, A>(config: &RobotConfig<J, A>, section: &str, joint: &str) -> (r: Option<u8>)
    ensures
        r == config.slot_can_id(section@, joint@),
{
    if str_eq(section, "arm_left") {
        match &config.arm_left {
            Some(arm) => joint_can_id(arm, joint),
            None => None,
        }
    } else if str_eq(section, "arm_right") {
        match &config.arm_right {
            Some(arm) => joint_can_id(arm, joint),
            None => None,
        }
    } else if str_eq(section, "waist") {
        match &config.waist {
            Some(w) => match waist_position(w, joint) {
                Some(k) => w[k].1.can_id,
                None => None,
            },
            None => None,
        }
    } else {
        None
    }
}

/// The CAN ID of the arm joint called `joint`, if it exists.
fn joint_can_id<J>(arm: &ArmConfig<J>, joint: &str) -> (r: Option<u8>)
    ensures
        arm_joint_index(joint@) >= 0 ==> r == arm.joint(arm_joint_index(joint@)).can_id,
        arm_joint_index(joint@) < 0 ==> r is None,
{
    if str_eq(joint, "shoulder_pitch") {
        arm.shoulder_pitch.can_id
    } else if str_eq(joint, "shoulder_roll") {
        arm.shoulder_roll.can_id
    } else if str_eq(joint, "upper_arm_yaw") {
        arm.upper_arm_yaw.can_id
    } else if str_eq(joint, "elbow_pitch") {
        arm.elbow_pitch.can_id
    } else {
        None
    }
}

/// `o` with `id` removed.
pub open spec fn cleared_id(o: Option<u8>, id: u8) -> Option<u8> {
    if o == Some(id) {
        None
    } else {
        o
    }
}

impl<J, A> RobotConfig<J, A> {
    /// Position of the slot `section`/`joint` in `slots()`.
    pub open spec fn slot_position(self, section: Seq<char>, joint: Seq<char>) -> int {
        let nl = if self.arm_left is Some { 4int } else { 0int };
        let nr = if self.arm_right is Some { 4int } else { 0int };
        if section == arm_left_name() {
            arm_joint_index(joint)
        } else if section == arm_right_name() {
            nl + arm_joint_index(joint)
        } else {
            nl + nr + waist_index(self.waist->0@, joint)
        }
    }
}

/// Slot lengths of the three sections.
proof fn lemma_slot_lengths<J, A>(c: RobotConfig<J, A>)
    ensures
        c.slots().len() == arm_entries(arm_left_name(), c.arm_left).len() + arm_entries(arm_right_name(), c.arm_right).len()
            + waist_entries(c.waist).len(),
        arm_entries(arm_left_name(), c.arm_left).len() == if c.arm_left is Some { 4int } else { 0int },
        arm_entries(arm_right_name(), c.arm_right).len() == if c.arm_right is Some { 4int } else { 0int },
        waist_entries(c.waist).len() == if c.waist is Some { c.waist->0@.len() as int } else { 0int },
{
}

/// The slot at position `k`, read off the section it falls in.
proof fn lemma_slot_at<J, A>(c: RobotConfig<J, A>, k: int)
    requires
        0 <= k < c.slots().len(),
    ensures
        ({
            let nl = if c.arm_left is Some { 4int } else { 0int };
            let nr = if c.arm_right is Some { 4int } else { 0int };
            if k < nl {
                c.slots()[k] == (arm_left_name(), arm_joint_name(k), c.arm_left->0.joint(k).can_id)
            } else if k < nl + nr {
                c.slots()[k] == (arm_right_name(), arm_joint_name(k - nl), c.arm_right->0.joint(k - nl).can_id)
            } else {
                &&& c.waist is Some
                &&& c.slots()[k] == (waist_name(), c.waist->0@[k - nl - nr].0@, c.waist->0@[k - nl - nr].1.can_id)
            }
        }),
{
    lemma_slot_lengths(c);
    let l = arm_entries(arm_left_name(), c.arm_left);
    let r = arm_entries(arm_right_name(), c.arm_right);
    let w = waist_entries(c.waist);
    assert(c.entries() == l + r + w);
    let nl = l.len() as int;
    let nr = r.len() as int;
    if k < nl {
        assert(c.entries()[k] == l[k]);
        if k == 0 {
        } else if k == 1 {
        } else if k == 2 {
        } else {
        }
    } else if k < nl + nr {
        assert(c.entries()[k] == r[k - nl]);
        let i = k - nl;
        if i == 0 {
        } else if i == 1 {
        } else if i == 2 {
        } else {
        }
    } else {
        assert(c.entries()[k] == w[k - nl - nr]);
    }
}

/// Clearing an ID from the configuration clears it from every slot and
/// leaves every slot's section, name and other IDs as they were.
pub proof fn lemma_clear_slots<J, A>(new: RobotConfig<J, A>, old: RobotConfig<J, A>, id: u8)
    requires
        new.cleared_from(old, id),
    ensures
        new.slots().len() == old.slots().len(),
        forall|k: int|
            0 <= k < new.slots().len() ==> (#[trigger] new.slots()[k]).0 == old.slots()[k].0 && new.slots()[k].1
                == old.slots()[k].1 && new.slots()[k].2 == cleared_id(old.slots()[k].2, id),
        forall|k: int| 0 <= k < new.slots().len() ==> (#[trigger] new.slots()[k]).2 != Some(id),
{
    lemma_slot_lengths(new);
    lemma_slot_lengths(old);
    assert forall|k: int| 0 <= k < new.slots().len() implies (#[trigger] new.slots()[k]).0 == old.slots()[k].0
        && new.slots()[k].1 == old.slots()[k].1 && new.slots()[k].2 == cleared_id(old.slots()[k].2, id) by {
        lemma_slot_at(new, k);
        lemma_slot_at(old, k);
        let nl = if old.arm_left is Some { 4int } else { 0int };
        let nr = if old.arm_right is Some { 4int } else { 0int };
        if k < nl {
            let i = k;
            if i == 0 {} else if i == 1 {} else if i == 2 {} else {}
        } else if k < nl + nr {
            let i = k - nl;
            if i == 0 {} else if i == 1 {} else if i == 2 {} else {}
        } else {
            assert(new.waist->0@[k - nl - nr] == (old.waist->0@[k - nl - nr].0, cleared_joint(old.waist->0@[k - nl - nr].1, id)));
        }
    }
}

/// After a successful assignment the slot `section`/`joint` holds the ID,
/// every other slot has lost it, and no slot changes in any other way.
pub proof fn lemma_assign_slots<J, A>(new: RobotConfig<J, A>, old: RobotConfig<J, A>, section: Seq<char>, joint: Seq<char>, id: u8)
    requires
        old.has_slot(section, joint),
        new.assigned_from(old, section, joint, id),
    ensures
        0 <= old.slot_position(section, joint) < old.slots().len(),
        new.slots().len() == old.slots().len(),
        forall|k: int|
            0 <= k < new.slots().len() ==> (#[trigger] new.slots()[k]).0 == old.slots()[k].0 && new.slots()[k].1
                == old.slots()[k].1,
        forall|k: int|
            0 <= k < new.slots().len() ==> (#[trigger] new.slots()[k]).2 == if k == old.slot_position(section, joint) {
                Some(id)
            } else {
                cleared_id(old.slots()[k].2, id)
            },
        new.slot_can_id(section, joint) == Some(id),
{
    lemma_slot_lengths(new);
    lemma_slot_lengths(old);
    lemma_name_index_from(old.waist->0@, joint, 0);
    let pos = old.slot_position(section, joint);
    let nl = if old.arm_left is Some { 4int } else { 0int };
    let nr = if old.arm_right is Some { 4int } else { 0int };
    assert forall|k: int| 0 <= k < new.slots().len() implies (#[trigger] new.slots()[k]).0 == old.slots()[k].0
        && new.slots()[k].1 == old.slots()[k].1 && new.slots()[k].2 == if k == pos {
            Some(id)
        } else {
            cleared_id(old.slots()[k].2, id)
        } by {
        lemma_slot_at(new, k);
        lemma_slot_at(old, k);
        if k < nl {
            let i = k;
            if i == 0 {} else if i == 1 {} else if i == 2 {} else {}
        } else if k < nl + nr {
            let i = k - nl;
            if i == 0 {} else if i == 1 {} else if i == 2 {} else {}
        } else {
            let i = k - nl - nr;
            let cw = cleared_waist(old.waist->0@, id);
            assert(cw[i] == (old.waist->0@[i].0, cleared_joint(old.waist->0@[i].1, id)));
        }
    }
    if section == waist_name() && section != arm_left_name() && section != arm_right_name() {
        lemma_cleared_waist_index(old.waist->0@, id, joint, 0);
        let cw = cleared_waist(old.waist->0@, id);
        let wk = waist_index(old.waist->0@, joint);
        lemma_name_index_from(new.waist->0@, joint, 0);
        assert(new.waist->0@[wk].0@ == joint);
        assert forall|j: int| 0 <= j < wk implies #[trigger] new.waist->0@[j].0@ != joint by {
            assert(new.waist->0@[j].0 == old.waist->0@[j].0);
        }
        assert(waist_index(new.waist->0@, joint) == wk);
    }
}

/// Once an ID is cleared, the assigned IDs no longer include it.
pub proof fn lemma_cleared_id_not_assigned<J, A>(new: RobotConfig<J, A>, old: RobotConfig<J, A>, id: u8)
    requires
        new.cleared_from(old, id),
    ensures
        !assigned_ids(new.slots()).contains(id),
{
    lemma_clear_slots(new, old, id);
    lemma_assigned_ids_only_from_slots(new.slots(), id);
}

/// An ID is assigned only if some slot holds it.
pub proof fn lemma_assigned_ids_only_from_slots(slots: Seq<SlotView>, id: u8)
    ensures
        assigned_ids(slots).contains(id) ==> exists|k: int| 0 <= k < slots.len() && (#[trigger] slots[k]).2 == Some(id),
    decreases slots.len(),
{
    if slots.len() > 0 {
        let pre = slots.drop_last();
        lemma_assigned_ids_only_from_slots(pre, id);
        if assigned_ids(slots).contains(id) {
            let a = assigned_ids(pre);
            match slots.last().2 {
                Some(x) => {
                    let k = choose|k: int| 0 <= k < a.push(x).len() && a.push(x)[k] == id;
                    if k < a.len() {
                        assert(a[k] == id);
                        let m = choose|m: int| 0 <= m < pre.len() && (#[trigger] pre[m]).2 == Some(id);
                        assert(slots[m] == pre[m]);
                    } else {
                        assert(slots[slots.len() - 1].2 == Some(id));
                    }
                },
                None => {
                    let m = choose|m: int| 0 <= m < pre.len() && (#[trigger] pre[m]).2 == Some(id);
                    assert(slots[m] == pre[m]);
                },
            }
        }
    }
}

/// No two slots hold the same CAN ID.
pub open spec fn ids_unique(slots: Seq<SlotView>) -> bool {
    forall|i: int, j: int|
        0 <= i < slots.len() && 0 <= j < slots.len() && i != j && (#[trigger] slots[i]).2 is Some ==> slots[i].2
            != (#[trigger] slots[j]).2
}

/// Assigning an ID keeps the slots' IDs pairwise distinct, and after the
/// assignment exactly one slot, the assigned one, holds the ID.
pub proof fn lemma_assign_keeps_ids_unique<J, A>(new: RobotConfig<J, A>, old: RobotConfig<J, A>, section: Seq<char>, joint: Seq<char>, id: u8)
    requires
        ids_unique(old.slots()),
        old.has_slot(section, joint),
        new.assigned_from(old, section, joint, id),
    ensures
        ids_unique(new.slots()),
        forall|k: int| 0 <= k < new.slots().len() ==> ((#[trigger] new.slots()[k]).2 == Some(id) <==> k == old.slot_position(section, joint)),
{
    lemma_assign_slots(new, old, section, joint, id);
}

/// Clearing an ID keeps the slots' IDs pairwise distinct.
pub proof fn lemma_clear_keeps_ids_unique<J, A>(new: RobotConfig<J, A>, old: RobotConfig<J, A>, id: u8)
    requires
        ids_unique(old.slots()),
        new.cleared_from(old, id),
    ensures
        ids_unique(new.slots()),
{
    lemma_clear_slots(new, old, id);
}

/// No two slots share a section and a joint name: the waist's joint names
/// are distinct, as the keys of the configuration file's waist map are.
pub open spec fn slot_names_distinct(slots: Seq<SlotView>) -> bool {
    forall|i: int, j: int|
        0 <= i < j < slots.len() ==> !((#[trigger] slots[i]).0 == (#[trigger] slots[j]).0 && slots[i].1 == slots[j].1)
}

impl<J, A> RobotConfig<J, A> {
    /// No two waist joints share a name (as no two keys of the configuration
    /// file's waist map can).
    pub open spec fn waist_names_distinct(self) -> bool {
        match self.waist {
            Some(w) => forall|a: int, b: int| 0 <= a < b < w@.len() ==> (#[trigger] w@[a]).0@ != (#[trigger] w@[b]).0@,
            None => true,
        }
    }

    /// Whether the waist joints' names are distinct; a configuration read
    /// from elsewhere is checked with this before use.
    pub fn has_distinct_waist_names(&self) -> (r: bool)
        ensures
            r == self.waist_names_distinct(),
    {
        match &self.waist {
            Some(w) => {
                let n: usize = w.len();
                let mut a: usize = 0;
                while a < n
                    invariant
                        a <= n,
                        n == w@.len(),
                        self.waist == Some(*w),
                        forall|x: int, y: int| 0 <= x < a && x < y < n ==> (#[trigger] w@[x]).0@ != (#[trigger] w@[y]).0@,
                    decreases n - a,
                {
                    let mut b: usize = a + 1;
                    while b < n
                        invariant
                            a < n,
                            a + 1 <= b <= n,
                            n == w@.len(),
                            self.waist == Some(*w),
                            forall|x: int, y: int| 0 <= x < a && x < y < n ==> (#[trigger] w@[x]).0@ != (#[trigger] w@[y]).0@,
                            forall|y: int| a < y < b ==> w@[a as int].0@ != (#[trigger] w@[y]).0@,
                        decreases n - b,
                    {
                        if str_eq(w[a].0.as_str(), w[b].0.as_str()) {
                            proof {
                                let ww = self.waist->0;
                                assert(ww@ == w@);
                                assert(ww@[a as int].0@ == ww@[b as int].0@);
                                assert(0 <= a < b < ww@.len());
                            }
                            return false;
                        }
                        b = b + 1;
                    }
                    a = a + 1;
                }
                true
            },
            None => true,
        }
    }
}

/// The four arm joint names are distinct, and so are the three section names.
proof fn lemma_fixed_names_distinct()
    ensures
        forall|a: int, b: int| 0 <= a < 4 && 0 <= b < 4 && a != b ==> arm_joint_name(a) != arm_joint_name(b),
        arm_left_name() != arm_right_name(),
        arm_left_name() != waist_name(),
        arm_right_name() != waist_name(),
{
    reveal_strlit("shoulder_pitch");
    reveal_strlit("shoulder_roll");
    reveal_strlit("upper_arm_yaw");
    reveal_strlit("elbow_pitch");
    reveal_strlit("arm_left");
    reveal_strlit("arm_right");
    reveal_strlit("waist");
    assert("shoulder_roll"@[0] != "upper_arm_yaw"@[0]);
    assert("shoulder_pitch"@.len() != "shoulder_roll"@.len());
    assert("shoulder_pitch"@.len() != "upper_arm_yaw"@.len());
    assert("shoulder_pitch"@.len() != "elbow_pitch"@.len());
    assert("shoulder_roll"@.len() != "elbow_pitch"@.len());
    assert("upper_arm_yaw"@.len() != "elbow_pitch"@.len());
    assert("arm_left"@.len() != "arm_right"@.len());
    assert("arm_left"@.len() != "waist"@.len());
    assert("arm_right"@.len() != "waist"@.len());
}

/// A configuration whose waist names are distinct has distinct slot names,
/// so the laws that keep slot names distinct apply to it.
pub proof fn lemma_distinct_waist_names_give_distinct_slots<J, A>(c: RobotConfig<J, A>)
    requires
        c.waist_names_distinct(),
    ensures
        slot_names_distinct(c.slots()),
{
    lemma_fixed_names_distinct();
    lemma_slot_lengths(c);
    let nl = if c.arm_left is Some { 4int } else { 0int };
    let nr = if c.arm_right is Some { 4int } else { 0int };
    assert forall|i: int, j: int| 0 <= i < j < c.slots().len() implies !((#[trigger] c.slots()[i]).0
        == (#[trigger] c.slots()[j]).0 && c.slots()[i].1 == c.slots()[j].1) by {
        lemma_slot_at(c, i);
        lemma_slot_at(c, j);
        if j >= nl + nr && i >= nl + nr {
            let w = c.waist->0@;
            assert(w[i - nl - nr].0@ != w[j - nl - nr].0@);
        }
    }
}

/// Clearing an ID keeps the slot names distinct.
pub proof fn lemma_clear_keeps_names_distinct<J, A>(new: RobotConfig<J, A>, old: RobotConfig<J, A>, id: u8)
    requires
        slot_names_distinct(old.slots()),
        new.cleared_from(old, id),
    ensures
        slot_names_distinct(new.slots()),
{
    lemma_clear_slots(new, old, id);
    assert forall|i: int, j: int| 0 <= i < j < new.slots().len() implies !((#[trigger] new.slots()[i]).0
        == (#[trigger] new.slots()[j]).0 && new.slots()[i].1 == new.slots()[j].1) by {
        assert(old.slots()[i].0 == new.slots()[i].0 && old.slots()[i].1 == new.slots()[i].1);
        assert(old.slots()[j].0 == new.slots()[j].0 && old.slots()[j].1 == new.slots()[j].1);
    }
}

/// Assigning an ID keeps the slot names distinct.
pub proof fn lemma_assign_keeps_names_distinct<J, A>(new: RobotConfig<J, A>, old: RobotConfig<J, A>, section: Seq<char>, joint: Seq<char>, id: u8)
    requires
        slot_names_distinct(old.slots()),
        old.has_slot(section, joint),
        new.assigned_from(old, section, joint, id),
    ensures
        slot_names_distinct(new.slots()),
{
    lemma_assign_slots(new, old, section, joint, id);
    assert forall|i: int, j: int| 0 <= i < j < new.slots().len() implies !((#[trigger] new.slots()[i]).0
        == (#[trigger] new.slots()[j]).0 && new.slots()[i].1 == new.slots()[j].1) by {
        assert(old.slots()[i].0 == new.slots()[i].0 && old.slots()[i].1 == new.slots()[i].1);
        assert(old.slots()[j].0 == new.slots()[j].0 && old.slots()[j].1 == new.slots()[j].1);
    }
}

/// Replacing the joint in one slot (as editing it through `slot_mut` does)
/// keeps every slot's section and name, so the names stay distinct.
pub proof fn lemma_replace_keeps_names_distinct<J, A>(new: RobotConfig<J, A>, old: RobotConfig<J, A>, r: SlotRef, j: JointConfig<J>)
    requires
        slot_names_distinct(old.slots()),
        old.valid_ref(r),
        new.replaced_slot(old, r, j),
    ensures
        new.slots().len() == old.slots().len(),
        forall|k: int|
            0 <= k < new.slots().len() ==> (#[trigger] new.slots()[k]).0 == old.slots()[k].0 && new.slots()[k].1
                == old.slots()[k].1,
        slot_names_distinct(new.slots()),
{
    lemma_slot_lengths(new);
    lemma_slot_lengths(old);
    let nl = if old.arm_left is Some { 4int } else { 0int };
    let nr = if old.arm_right is Some { 4int } else { 0int };
    assert forall|k: int| 0 <= k < new.slots().len() implies (#[trigger] new.slots()[k]).0 == old.slots()[k].0
        && new.slots()[k].1 == old.slots()[k].1 by {
        lemma_slot_at(new, k);
        lemma_slot_at(old, k);
        if k >= nl + nr {
            let i = k - nl - nr;
            if r.section == Section::Waist {
                assert(new.waist->0@[i].0 == old.waist->0@[i].0);
            }
        }
    }
    assert forall|a: int, b: int| 0 <= a < b < new.slots().len() implies !((#[trigger] new.slots()[a]).0
        == (#[trigger] new.slots()[b]).0 && new.slots()[a].1 == new.slots()[b].1) by {
        assert(old.slots()[a].0 == new.slots()[a].0 && old.slots()[a].1 == new.slots()[a].1);
        assert(old.slots()[b].0 == new.slots()[b].0 && old.slots()[b].1 == new.slots()[b].1);
    }
}

/// After a successful assignment, looking the ID up finds the assigned slot.
pub proof fn lemma_find_after_assign<J, A>(new: RobotConfig<J, A>, old: RobotConfig<J, A>, section: Seq<char>, joint: Seq<char>, id: u8)
    requires
        old.has_slot(section, joint),
        new.assigned_from(old, section, joint, id),
    ensures
        forall|k: int| #[trigger] first_holder(new.entries(), k, id) <==> k == old.slot_position(section, joint),
{
    lemma_assign_slots(new, old, section, joint, id);
    let pos = old.slot_position(section, joint);
    assert forall|k: int| #[trigger] first_holder(new.entries(), k, id) <==> k == pos by {
        if k == pos {
            assert(new.slots()[pos].2 == Some(id));
            assert forall|m: int| 0 <= m < k implies (#[trigger] new.entries()[m]).2.can_id != Some(id) by {
                assert(new.slots()[m].2 == new.entries()[m].2.can_id);
            }
        }
        if first_holder(new.entries(), k, id) {
            assert(new.slots()[k].2 == new.entries()[k].2.can_id);
        }
    }
}

} // verus!
