use vstd::prelude::*;
use vstd::string::*;

use crate::config::{arm_joint_name, str_eq, ArmConfig};
use crate::text::{join_with, occurs_in, seq_join, str_contains, string_views};

verus! {

/// How homing ended for one joint.
#[derive(Debug, Clone)]
pub enum JointHomingStatus {
    AlreadyHome,
    Homed,
    StalledButHomed,
    TimedOut,
    Error(String),
    Skipped,
}

/// The status's wire name.
pub open spec fn status_name(s: JointHomingStatus) -> Seq<char> {
    match s {
        JointHomingStatus::AlreadyHome => "already_home"@,
        JointHomingStatus::Homed => "homed"@,
        JointHomingStatus::StalledButHomed => "stalled_but_homed"@,
        JointHomingStatus::TimedOut => "timed_out"@,
        JointHomingStatus::Error(_) => "error"@,
        JointHomingStatus::Skipped => "skipped"@,
    }
}

impl JointHomingStatus {
    /// The status's wire name.
    pub fn as_str(&self) -> (s: &str)
        ensures
            s@ == status_name(*self),
    {
        match self {
            JointHomingStatus::AlreadyHome => "already_home",
            JointHomingStatus::Homed => "homed",
            JointHomingStatus::StalledButHomed => "stalled_but_homed",
            JointHomingStatus::TimedOut => "timed_out",
            JointHomingStatus::Error(_) => "error",
            JointHomingStatus::Skipped => "skipped",
        }
    }
}

/// The status a joint gets from the outcome of position recovery: the
/// number of stall backoffs on success, the error text on failure.
pub open spec fn recovery_status_ok(stalls: u32) -> JointHomingStatus {
    if stalls > 0 {
        JointHomingStatus::StalledButHomed
    } else {
        JointHomingStatus::Homed
    }
}

/// Classifies the outcome of position recovery for one joint: success with
/// stall backoffs is "stalled but homed", without is "homed"; a failure whose
/// text mentions `timed out` is a timeout, any other failure an error.
pub fn status_after_recovery(outcome: Result<u32, String>) -> (s: JointHomingStatus)
    ensures
        match outcome {
            Ok(stalls) => s == recovery_status_ok(stalls),
            Err(msg) => if occurs_in(msg@, "timed out"@) {
                s == JointHomingStatus::TimedOut
            } else {
                s == JointHomingStatus::Error(msg)
            },
        },
{
    match outcome {
        Ok(stalls) => {
            if stalls > 0 {
                JointHomingStatus::StalledButHomed
            } else {
                JointHomingStatus::Homed
            }
        },
        Err(msg) => {
            if str_contains(msg.as_str(), "timed out") {
                JointHomingStatus::TimedOut
            } else {
                JointHomingStatus::Error(msg)
            }
        },
    }
}

/// The status of a joint that was near home and was moved there directly.
pub fn status_after_direct_move(settled: bool) -> (s: JointHomingStatus)
    ensures
        s == if settled { JointHomingStatus::Homed } else { JointHomingStatus::StalledButHomed },
{
    if settled {
        JointHomingStatus::Homed
    } else {
        JointHomingStatus::StalledButHomed
    }
}

/// One joint an arm drives: its name, its position in the arm's joint order,
/// its CAN ID and whether it is zeroed straight down before enabling.
#[derive(Debug, Clone, Copy)]
pub struct RosterEntry {
    pub name: &'static str,
    pub index: usize,
    pub can_id: u8,
    pub straight_down_home_at_startup: bool,
}

/// Whether `id` is among `ids`.
pub open spec fn has_id(ids: Seq<u8>, id: u8) -> bool {
    exists|k: int| 0 <= k < ids.len() && ids[k] == id
}

/// Positions (in joint order) among the first `n` joints of the arm whose
/// CAN ID is set and has a registered motor.
pub open spec fn roster_upto<J>(arm: ArmConfig<J>, available: Seq<u8>, n: int) -> Seq<int>
    decreases n,
{
    if n <= 0 {
        seq![]
    } else {
        let pre = roster_upto(arm, available, n - 1);
        match arm.joint(n - 1).can_id {
            Some(id) => if has_id(available, id) {
                pre.push(n - 1)
            } else {
                pre
            },
            None => pre,
        }
    }
}

/// The entry describing joint `i` of the arm.
pub open spec fn entry_matches<J>(e: RosterEntry, arm: ArmConfig<J>, i: int) -> bool {
    &&& e.name@ == arm_joint_name(i)
    &&& e.index == i
    &&& Some(e.can_id) == arm.joint(i).can_id
    &&& e.straight_down_home_at_startup == arm.joint(i).straight_down_home_at_startup
}

/// Whether `id` is among `ids`.
fn contains_id(ids: &[u8], id: u8) -> (b: bool)
    ensures
        b == has_id(ids@, id),
{
    let mut i: usize = 0;
    while i < ids.len()
        invariant
            i <= ids@.len(),
            forall|k: int| 0 <= k < i ==> ids@[k] != id,
        decreases ids@.len() - i,
    {
        if ids[i] == id {
            return true;
        }
        i = i + 1;
    }
    false
}

/// The joints of an arm in their fixed order that have a CAN ID with a
/// registered motor (`available` lists the registered CAN IDs); joints whose
/// motor is missing are skipped.
pub struct JointRoster {
    pub entries: Vec<RosterEntry>,
}

impl JointRoster {
    /// Builds the roster of an arm from its configuration.
    pub fn from_config<J>(config: &ArmConfig<J>, available: &[u8]) -> (r: JointRoster)
        ensures
            r.entries@.len() == roster_upto(*config, available@, 4).len(),
            forall|k: int|
                0 <= k < r.entries@.len() ==> entry_matches(
                    #[trigger] r.entries@[k],
                    *config,
                    roster_upto(*config, available@, 4)[k],
                ),
    {
        let js = config.joints();
        let mut entries: Vec<RosterEntry> = Vec::new();
        let mut i: usize = 0;
        while i < 4
            invariant
                i <= 4,
                forall|m: int| 0 <= m < 4 ==> (#[trigger] js@[m]).0@ == arm_joint_name(m) && *js@[m].1 == config.joint(m),
                entries@.len() == roster_upto(*config, available@, i as int).len(),
                forall|k: int|
                    0 <= k < entries@.len() ==> entry_matches(
                        #[trigger] entries@[k],
                        *config,
                        roster_upto(*config, available@, i as int)[k],
                    ),
            decreases 4 - i,
        {
            let (name, joint) = js[i];
            assert(js@[i as int].0 == name && *js@[i as int].1 == *joint);
            match joint.can_id {
                Some(id) => {
                    if contains_id(available, id) {
                        entries.push(
                            RosterEntry {
                                name,
                                index: i,
                                can_id: id,
                                straight_down_home_at_startup: joint.straight_down_home_at_startup,
                            },
                        );
                    }
                },
                None => {},
            }
            i = i + 1;
        }
        JointRoster { entries }
    }

    /// Joint names in order.
    pub fn joint_names(&self) -> (names: Vec<&'static str>)
        ensures
            names@.len() == self.entries@.len(),
            forall|k: int| 0 <= k < names@.len() ==> #[trigger] names@[k] == self.entries@[k].name,
    {
        let mut names: Vec<&'static str> = Vec::new();
        let mut i: usize = 0;
        while i < self.entries.len()
            invariant
                i <= self.entries@.len(),
                names@.len() == i,
                forall|k: int| 0 <= k < i ==> #[trigger] names@[k] == self.entries@[k].name,
            decreases self.entries@.len() - i,
        {
            names.push(self.entries[i].name);
            i = i + 1;
        }
        names
    }

    /// Position in the roster of the first joint called `name`.
    pub fn position(&self, name: &str) -> (r: Option<usize>)
        ensures
            match r {
                Some(k) => k < self.entries@.len() && self.entries@[k as int].name@ == name@ && forall|m: int|
                    0 <= m < k ==> (#[trigger] self.entries@[m]).name@ != name@,
                None => forall|m: int| 0 <= m < self.entries@.len() ==> (#[trigger] self.entries@[m]).name@ != name@,
            },
    {
        let mut i: usize = 0;
        while i < self.entries.len()
            invariant
                i <= self.entries@.len(),
                forall|m: int| 0 <= m < i ==> (#[trigger] self.entries@[m]).name@ != name@,
            decreases self.entries@.len() - i,
        {
            if str_eq(self.entries[i].name, name) {
                return Some(i);
            }
            i = i + 1;
        }
        None
    }

    /// Roster positions of the joints zeroed straight down before enabling,
    /// in order.
    pub fn straight_down_positions(&self) -> (r: Vec<usize>)
        ensures
            forall|k: int| 0 <= k < r@.len() ==> #[trigger] r@[k] < self.entries@.len() && self.entries@[r@[k] as int].straight_down_home_at_startup,
            forall|m: int| 0 <= m < self.entries@.len() && (#[trigger] self.entries@[m]).straight_down_home_at_startup ==> r@.contains(m as usize),
            forall|a: int, b: int| 0 <= a < b < r@.len() ==> r@[a] < r@[b],
    {
        let mut r: Vec<usize> = Vec::new();
        let mut i: usize = 0;
        while i < self.entries.len()
            invariant
                i <= self.entries@.len(),
                forall|k: int| 0 <= k < r@.len() ==> #[trigger] r@[k] < i && self.entries@[r@[k] as int].straight_down_home_at_startup,
                forall|m: int| 0 <= m < i && (#[trigger] self.entries@[m]).straight_down_home_at_startup ==> r@.contains(m as usize),
                forall|a: int, b: int| 0 <= a < b < r@.len() ==> r@[a] < r@[b],
            decreases self.entries@.len() - i,
        {
            if self.entries[i].straight_down_home_at_startup {
                let ghost before = r@;
                r.push(i);
                assert forall|m: int| 0 <= m < i + 1 && (#[trigger] self.entries@[m]).straight_down_home_at_startup implies r@.contains(m as usize) by {
                    if m < i {
                        let w = choose|w: int| 0 <= w < before.len() && before[w] == m as usize;
                        assert(r@[w] == m as usize);
                    } else {
                        assert(r@[r@.len() - 1] == i);
                    }
                }
            }
            i = i + 1;
        }
        r
    }
}


/// Whether homing may start after the pre-flight check.
#[derive(Debug, Clone, Copy, PartialEq, Eq, Structural)]
pub enum PreflightDecision {
    /// Every joint is inside its limits.
    Proceed,
    /// Some joint is outside its limits but homing is forced.
    ProceedOverridden,
    /// Some joint is outside its limits: homing is refused.
    Refuse,
}

/// What homing does given whether every joint lies inside its limits (`pass`) and whether it is forced.
pub fn preflight_decision(pass: bool, force: bool) -> (g: PreflightDecision)
    ensures
        g == if pass {
            PreflightDecision::Proceed
        } else if force {
            PreflightDecision::ProceedOverridden
        } else {
            PreflightDecision::Refuse
        },
{
    if pass {
        PreflightDecision::Proceed
    } else if force {
        PreflightDecision::ProceedOverridden
    } else {
        PreflightDecision::Refuse
    }
}

/// The text homing fails with when the pre-flight check refuses it, given
/// one description per violating joint.
pub fn preflight_refusal_message(violations: &Vec<String>) -> (m: String)
    ensures
        m@ == "Pre-flight check failed: "@ + seq_join(string_views(violations@), "; "@)
            + ". Resolve violations or use force override."@,
{
    let mut m = String::from_str("Pre-flight check failed: ");
    let joined = join_with(violations, "; ");
    m.append(joined.as_str());
    m.append(". Resolve violations or use force override.");
    m
}

/// The text the control API reports when a pre-flight check blocks homing.
pub fn preflight_api_message(violations: &Vec<String>) -> (m: String)
    ensures
        m@ == "Pre-flight check failed: "@ + seq_join(string_views(violations@), "; "@),
{
    let mut m = String::from_str("Pre-flight check failed: ");
    let joined = join_with(violations, "; ");
    m.append(joined.as_str());
    m
}


/// A homing outcome with its error text taken as characters.
pub ghost enum StatusView {
    AlreadyHome,
    Homed,
    StalledButHomed,
    TimedOut,
    Error(Seq<char>),
    Skipped,
}

impl View for JointHomingStatus {
    type V = StatusView;

    open spec fn view(&self) -> StatusView {
        match self {
            JointHomingStatus::AlreadyHome => StatusView::AlreadyHome,
            JointHomingStatus::Homed => StatusView::Homed,
            JointHomingStatus::StalledButHomed => StatusView::StalledButHomed,
            JointHomingStatus::TimedOut => StatusView::TimedOut,
            JointHomingStatus::Error(m) => StatusView::Error(m@),
            JointHomingStatus::Skipped => StatusView::Skipped,
        }
    }
}

/// Where homing one joint stands.
#[derive(Debug, Clone, Copy, PartialEq, Eq, Structural)]
pub enum HomingState {
    /// Its start position is being read.
    Started,
    /// Multi-turn offset is being collapsed and its distance to home measured.
    Measuring,
    /// It is being enabled with a holding command; `near` tells which move follows.
    Enabling { near: bool },
    /// It is moving home: by the direct gain ramp (`ramp`) or by recovery.
    Moving { ramp: bool },
    /// Its outcome has been reported.
    Finished,
}

/// What the caller observed after the last action. Distances are compared
/// by the caller (in floating point); only the outcomes arrive here.
pub enum HomingEvent {
    /// The start position was read, or the reason it could not be.
    StartRead(Result<(), String>),
    /// The distance to home: within the settle tolerance, and within the
    /// distance that a direct move covers.
    Measured { settled: bool, near: bool },
    /// Enabling finished, or the reason it failed.
    Enabled(Result<(), String>),
    /// The direct ramp ended, within the settle tolerance or not.
    RampFinished { settled: bool },
    /// Recovery ended with its backoff count, or the reason it failed.
    RecoveryFinished(Result<u32, String>),
}

/// What the caller does next for the joint.
pub enum HomingAction {
    /// Collapse multi-turn offset and measure the distance to home.
    Measure,
    /// Enable the motor, holding its position.
    Enable,
    /// Command home directly while ramping the gains.
    RunRamp,
    /// Run the approach and gradual recovery.
    RunRecovery,
    /// Record this outcome for the joint; nothing more is done with it.
    Report(JointHomingStatus),
    /// The event does not fit the state; nothing to do.
    Ignore,
}

/// A [`HomingEvent`] with its texts taken as characters.
pub ghost enum HomingEventView {
    StartRead(Result<(), Seq<char>>),
    Measured { settled: bool, near: bool },
    Enabled(Result<(), Seq<char>>),
    RampFinished { settled: bool },
    RecoveryFinished(Result<u32, Seq<char>>),
}

/// A [`HomingAction`] with its outcome taken by its view.
pub ghost enum HomingActionView {
    Measure,
    Enable,
    RunRamp,
    RunRecovery,
    Report(StatusView),
    Ignore,
}

pub open spec fn unit_result_view(r: Result<(), String>) -> Result<(), Seq<char>> {
    match r {
        Ok(()) => Ok(()),
        Err(m) => Err(m@),
    }
}

impl View for HomingEvent {
    type V = HomingEventView;

    open spec fn view(&self) -> HomingEventView {
        match self {
            HomingEvent::StartRead(r) => HomingEventView::StartRead(unit_result_view(*r)),
            HomingEvent::Measured { settled, near } => HomingEventView::Measured { settled: *settled, near: *near },
            HomingEvent::Enabled(r) => HomingEventView::Enabled(unit_result_view(*r)),
            HomingEvent::RampFinished { settled } => HomingEventView::RampFinished { settled: *settled },
            HomingEvent::RecoveryFinished(r) => HomingEventView::RecoveryFinished(
                match r {
                    Ok(n) => Ok(*n),
                    Err(m) => Err(m@),
                },
            ),
        }
    }
}

impl View for HomingAction {
    type V = HomingActionView;

    open spec fn view(&self) -> HomingActionView {
        match self {
            HomingAction::Measure => HomingActionView::Measure,
            HomingAction::Enable => HomingActionView::Enable,
            HomingAction::RunRamp => HomingActionView::RunRamp,
            HomingAction::RunRecovery => HomingActionView::RunRecovery,
            HomingAction::Report(s) => HomingActionView::Report(s@),
            HomingAction::Ignore => HomingActionView::Ignore,
        }
    }
}

/// One step of homing a joint. An unreadable joint is reported as an error;
/// a joint already within tolerance is reported home without being enabled;
/// otherwise it is enabled, and only once enabled it moves: directly with a
/// gain ramp when near, by recovery when far. A failed enable is reported
/// (`enable failed: ` and the reason) and the joint is not moved. The move's
/// end is reported as [`status_after_direct_move`] and
/// [`status_after_recovery`] classify it. After the report nothing happens.
pub open spec fn homing_transition(s: HomingState, e: HomingEventView) -> (HomingState, HomingActionView) {
    match (s, e) {
        (HomingState::Started, HomingEventView::StartRead(Ok(()))) => (HomingState::Measuring, HomingActionView::Measure),
        (HomingState::Started, HomingEventView::StartRead(Err(m))) => (
            HomingState::Finished,
            HomingActionView::Report(StatusView::Error(m)),
        ),
        (HomingState::Measuring, HomingEventView::Measured { settled, near }) => if settled {
            (HomingState::Finished, HomingActionView::Report(StatusView::AlreadyHome))
        } else {
            (HomingState::Enabling { near }, HomingActionView::Enable)
        },
        (HomingState::Enabling { near }, HomingEventView::Enabled(Ok(()))) => if near {
            (HomingState::Moving { ramp: true }, HomingActionView::RunRamp)
        } else {
            (HomingState::Moving { ramp: false }, HomingActionView::RunRecovery)
        },
        (HomingState::Enabling { .. }, HomingEventView::Enabled(Err(m))) => (
            HomingState::Finished,
            HomingActionView::Report(StatusView::Error("enable failed: "@ + m)),
        ),
        (HomingState::Moving { ramp: true }, HomingEventView::RampFinished { settled }) => (
            HomingState::Finished,
            HomingActionView::Report(if settled { StatusView::Homed } else { StatusView::StalledButHomed }),
        ),
        (HomingState::Moving { ramp: false }, HomingEventView::RecoveryFinished(Ok(n))) => (
            HomingState::Finished,
            HomingActionView::Report(if n > 0 { StatusView::StalledButHomed } else { StatusView::Homed }),
        ),
        (HomingState::Moving { ramp: false }, HomingEventView::RecoveryFinished(Err(m))) => (
            HomingState::Finished,
            HomingActionView::Report(if occurs_in(m, "timed out"@) { StatusView::TimedOut } else { StatusView::Error(m) }),
        ),
        _ => (s, HomingActionView::Ignore),
    }
}

/// Takes one step of homing a joint.
pub fn homing_next(s: HomingState, e: HomingEvent) -> (r: (HomingState, HomingAction))
    ensures
        (r.0, r.1@) == homing_transition(s, e@),
{
    match s {
        HomingState::Started => match e {
            HomingEvent::StartRead(Ok(())) => (HomingState::Measuring, HomingAction::Measure),
            HomingEvent::StartRead(Err(m)) => (HomingState::Finished, HomingAction::Report(JointHomingStatus::Error(m))),
            _ => (s, HomingAction::Ignore),
        },
        HomingState::Measuring => match e {
            HomingEvent::Measured { settled, near } => if settled {
                (HomingState::Finished, HomingAction::Report(JointHomingStatus::AlreadyHome))
            } else {
                (HomingState::Enabling { near }, HomingAction::Enable)
            },
            _ => (s, HomingAction::Ignore),
        },
        HomingState::Enabling { near } => match e {
            HomingEvent::Enabled(Ok(())) => if near {
                (HomingState::Moving { ramp: true }, HomingAction::RunRamp)
            } else {
                (HomingState::Moving { ramp: false }, HomingAction::RunRecovery)
            },
            HomingEvent::Enabled(Err(m)) => {
                let mut text = String::from_str("enable failed: ");
                text.append(m.as_str());
                (HomingState::Finished, HomingAction::Report(JointHomingStatus::Error(text)))
            },
            _ => (s, HomingAction::Ignore),
        },
        HomingState::Moving { ramp } => match e {
            HomingEvent::RampFinished { settled } => if ramp {
                (HomingState::Finished, HomingAction::Report(status_after_direct_move(settled)))
            } else {
                (s, HomingAction::Ignore)
            },
            HomingEvent::RecoveryFinished(outcome) => if !ramp {
                (HomingState::Finished, HomingAction::Report(status_after_recovery(outcome)))
            } else {
                (s, HomingAction::Ignore)
            },
            _ => (s, HomingAction::Ignore),
        },
        HomingState::Finished => (s, HomingAction::Ignore),
    }
}

/// A joint is enabled only after its distance was measured and found
/// outside the settle tolerance: a joint already home is never powered.
pub proof fn lemma_enable_only_when_away(s: HomingState, e: HomingEventView)
    ensures
        homing_transition(s, e).1 == HomingActionView::Enable ==> s == HomingState::Measuring
            && e matches HomingEventView::Measured { settled: false, .. },
{
}

/// A joint moves only right after a successful enable, by the direct ramp
/// exactly when it was measured near home.
pub proof fn lemma_move_only_after_enable(s: HomingState, e: HomingEventView)
    ensures
        homing_transition(s, e).1 == HomingActionView::RunRamp ==> s == (HomingState::Enabling { near: true })
            && e == HomingEventView::Enabled(Ok(())),
        homing_transition(s, e).1 == HomingActionView::RunRecovery ==> s == (HomingState::Enabling { near: false })
            && e == HomingEventView::Enabled(Ok(())),
{
    match e {
        HomingEventView::Enabled(r) => match r {
            Ok(u) => {
                assert(u == ());
            },
            Err(_) => {},
        },
        _ => {},
    }
}

/// How a finished move is reported: recovery that backed off at least
/// once is "stalled but homed", one that never did is "homed"; a failure
/// whose text mentions `timed out` is "timed out", any other failure is an
/// error carrying its text. A ramp is "homed" exactly when it ended within
/// tolerance, else "stalled but homed".
pub proof fn lemma_move_outcome_reported(n: u32, m: Seq<char>, settled: bool)
    ensures
        homing_transition(HomingState::Moving { ramp: false }, HomingEventView::RecoveryFinished(Ok(n))) == (
            HomingState::Finished,
            HomingActionView::Report(if n > 0 { StatusView::StalledButHomed } else { StatusView::Homed }),
        ),
        n > 0 ==> homing_transition(HomingState::Moving { ramp: false }, HomingEventView::RecoveryFinished(Ok(n))).1
            == HomingActionView::Report(StatusView::StalledButHomed),
        homing_transition(HomingState::Moving { ramp: false }, HomingEventView::RecoveryFinished(Err(m))).1
            == HomingActionView::Report(if occurs_in(m, "timed out"@) { StatusView::TimedOut } else { StatusView::Error(m) }),
        homing_transition(HomingState::Moving { ramp: true }, HomingEventView::RampFinished { settled }).1
            == HomingActionView::Report(if settled { StatusView::Homed } else { StatusView::StalledButHomed }),
{
}

/// A successful recovery is "stalled but homed" exactly when it backed off
/// at least once, else "homed".
pub proof fn lemma_recovery_status_by_backoffs(n: u32)
    ensures
        (recovery_status_ok(n) == JointHomingStatus::StalledButHomed) <==> n > 0,
        (recovery_status_ok(n) == JointHomingStatus::Homed) <==> n == 0,
{
}

/// Every report finishes the joint, and a finished joint ignores every
/// further event: each joint is reported exactly once.
pub proof fn lemma_report_once(s: HomingState, e: HomingEventView)
    ensures
        homing_transition(s, e).1 is Report ==> homing_transition(s, e).0 == HomingState::Finished,
        homing_transition(HomingState::Finished, e) == (HomingState::Finished, HomingActionView::Ignore),
        homing_transition(s, e).1 is Ignore ==> homing_transition(s, e).0 == s,
{
}

} // verus!
