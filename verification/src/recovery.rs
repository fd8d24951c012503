use vstd::prelude::*;

use crate::safety::{resistance_step, ResistanceMonitor, ResistanceView};

verus! {

/// The two phases of startup recovery: a fast approach toward the target,
/// then gradual steps (and, close in, direct commands with a gain ramp).
#[derive(Debug, Clone, Copy, PartialEq, Eq, Structural)]
pub enum RecoveryStage {
    Approach,
    Gradual,
}

/// What the caller measured at the start of one recovery tick. The
/// distances are floating-point and compared by the caller; only the
/// outcomes of the comparisons reach the decisions here.
#[derive(Debug, Clone, Copy)]
pub struct TickReading {
    /// The distance to the target shrank (beyond noise) since the previous
    /// tick of this phase; the first tick of a phase always counts.
    pub improved: bool,
    /// The joint is within the settle tolerance of the target.
    pub settled: bool,
    /// Approach phase: close enough to hand over to the gradual phase.
    pub within_handoff: bool,
    /// Gradual phase: close enough to command the target directly.
    pub in_direct_zone: bool,
}

/// What to do on one recovery tick.
#[derive(Debug, Clone, Copy, PartialEq, Eq, Structural)]
pub enum TickPlan {
    /// The target is reached: re-arm stall detection and report the backoffs.
    Settled,
    /// Leave the approach phase for the gradual one.
    HandOff,
    /// Send one command: a bounded step or the target itself (`direct`), at
    /// full or at the reduced post-stall scale, with `settle_ticks` the
    /// number of consecutive direct commands so far (for the gain ramp).
    Command { direct: bool, scaled_down: bool, settle_ticks: u32 },
}

/// The state of startup recovery between ticks.
pub ghost struct RecoveryView {
    pub stage: RecoveryStage,
    /// Motion runs at the reduced post-stall scale.
    pub scaled_down: bool,
    /// Consecutive direct commands of the gradual phase.
    pub settle_ticks: u32,
    /// The resistance count and the backoffs so far.
    pub monitor: ResistanceView,
}

/// `s + 1`, staying at the largest value.
pub open spec fn saturating_inc(s: u32) -> u32 {
    if s == u32::MAX { s } else { (s + 1) as u32 }
}

/// The decision of one tick and the state after it. Progress ends the
/// resistance run and restores full scale; a reading within tolerance
/// finishes; in the approach phase, a reading within the handoff distance
/// hands over; otherwise a command is planned. In the gradual phase the
/// direct zone always runs at full scale and counts its consecutive ticks,
/// and a step outside it restarts that count.
pub open spec fn plan_step(v: RecoveryView, r: TickReading) -> (RecoveryView, TickPlan) {
    let v1 = if r.improved {
        RecoveryView { scaled_down: false, monitor: ResistanceView { streak: 0, ..v.monitor }, ..v }
    } else {
        v
    };
    if r.settled {
        (v1, TickPlan::Settled)
    } else if v1.stage == RecoveryStage::Approach {
        if r.within_handoff {
            (v1, TickPlan::HandOff)
        } else {
            (v1, TickPlan::Command { direct: false, scaled_down: v1.scaled_down, settle_ticks: v1.settle_ticks })
        }
    } else if r.in_direct_zone {
        let st = saturating_inc(v1.settle_ticks);
        (
            RecoveryView { scaled_down: false, settle_ticks: st, ..v1 },
            TickPlan::Command { direct: true, scaled_down: false, settle_ticks: st },
        )
    } else {
        (
            RecoveryView { settle_ticks: 0, ..v1 },
            TickPlan::Command { direct: false, scaled_down: v1.scaled_down, settle_ticks: 0 },
        )
    }
}

/// The state after a command's feedback is judged: a confirmed resistance
/// run triggers a backoff (returned) and scales motion down.
pub open spec fn feedback_step(v: RecoveryView, blocked: bool) -> (RecoveryView, bool) {
    let (m, back_off) = resistance_step(v.monitor, blocked);
    (RecoveryView { monitor: m, scaled_down: v.scaled_down || back_off, ..v }, back_off)
}

/// The decisions of startup recovery (one joint driven back to its home),
/// tick by tick; the caller does the bus work and the arithmetic.
pub struct RecoveryTracker {
    stage: RecoveryStage,
    scaled_down: bool,
    settle_ticks: u32,
    monitor: ResistanceMonitor,
}

impl View for RecoveryTracker {
    type V = RecoveryView;

    closed spec fn view(&self) -> RecoveryView {
        RecoveryView {
            stage: self.stage,
            scaled_down: self.scaled_down,
            settle_ticks: self.settle_ticks,
            monitor: self.monitor@,
        }
    }
}

impl RecoveryTracker {
    /// Recovery about to start: in the approach phase when it is enabled,
    /// else directly in the gradual one; full scale, no resistance seen,
    /// backing off after `confirm_ticks` blocked ticks in a row (at least one).
    pub fn new(approach_enabled: bool, confirm_ticks: u32) -> (t: RecoveryTracker)
        ensures
            t@ == (RecoveryView {
                stage: if approach_enabled { RecoveryStage::Approach } else { RecoveryStage::Gradual },
                scaled_down: false,
                settle_ticks: 0,
                monitor: ResistanceView {
                    confirm: if confirm_ticks >= 1 { confirm_ticks } else { 1 },
                    streak: 0,
                    backoffs: 0,
                },
            }),
    {
        RecoveryTracker {
            stage: if approach_enabled { RecoveryStage::Approach } else { RecoveryStage::Gradual },
            scaled_down: false,
            settle_ticks: 0,
            monitor: ResistanceMonitor::new(confirm_ticks),
        }
    }

    /// Decides one tick from the caller's reading.
    pub fn plan(&mut self, r: TickReading) -> (p: TickPlan)
        ensures
            (final(self)@, p) == plan_step(old(self)@, r),
    {
        if r.improved {
            self.scaled_down = false;
            self.monitor.progress();
        }
        if r.settled {
            return TickPlan::Settled;
        }
        match self.stage {
            RecoveryStage::Approach => {
                if r.within_handoff {
                    TickPlan::HandOff
                } else {
                    TickPlan::Command { direct: false, scaled_down: self.scaled_down, settle_ticks: self.settle_ticks }
                }
            },
            RecoveryStage::Gradual => {
                if r.in_direct_zone {
                    if self.settle_ticks < u32::MAX {
                        self.settle_ticks = self.settle_ticks + 1;
                    }
                    self.scaled_down = false;
                    TickPlan::Command { direct: true, scaled_down: false, settle_ticks: self.settle_ticks }
                } else {
                    self.settle_ticks = 0;
                    TickPlan::Command { direct: false, scaled_down: self.scaled_down, settle_ticks: 0 }
                }
            },
        }
    }

    /// Judges the feedback of the command just sent; returns `true` when the
    /// caller must hold and back off (motion is then scaled down).
    pub fn after_command(&mut self, looks_blocked: bool) -> (back_off: bool)
        requires
            old(self)@.monitor.backoffs < u32::MAX,
        ensures
            (final(self)@, back_off) == feedback_step(old(self)@, looks_blocked),
    {
        let b = self.monitor.observe(looks_blocked);
        if b {
            self.scaled_down = true;
        }
        b
    }

    /// Moves to the gradual phase (after a handoff, or when the approach
    /// phase ran out of time): full scale, a fresh resistance run, no direct
    /// commands yet; the backoffs so far are kept.
    pub fn start_gradual(&mut self)
        ensures
            final(self)@ == (RecoveryView {
                stage: RecoveryStage::Gradual,
                scaled_down: false,
                settle_ticks: 0,
                monitor: ResistanceView { streak: 0, ..old(self)@.monitor },
            }),
    {
        self.stage = RecoveryStage::Gradual;
        self.scaled_down = false;
        self.settle_ticks = 0;
        self.monitor.progress();
    }

    /// Backoffs triggered so far.
    pub fn backoffs(&self) -> (n: u32)
        ensures
            n == self@.monitor.backoffs,
    {
        self.monitor.backoffs()
    }

    /// The current phase.
    pub fn stage(&self) -> (s: RecoveryStage)
        ensures
            s == self@.stage,
    {
        self.stage
    }
}

/// A tick that shows progress, or any direct command, runs at full scale:
/// whatever backoffs came before, motion returns to full scale as soon as
/// the joint moves toward the target again.
pub proof fn lemma_progress_restores_full_scale(v: RecoveryView, r: TickReading)
    ensures
        (r.improved || (v.stage == RecoveryStage::Gradual && r.in_direct_zone && !r.settled))
            ==> !plan_step(v, r).0.scaled_down,
        r.improved ==> plan_step(v, r).0.monitor.streak == 0,
        plan_step(v, r).1 matches TickPlan::Command { scaled_down, .. } ==> scaled_down == plan_step(v, r).0.scaled_down,
{
}

/// A backoff always leaves motion scaled down, and the scale stays down
/// until a tick shows progress or reaches the direct zone.
pub proof fn lemma_backoff_scales_down(v: RecoveryView, blocked: bool, r: TickReading)
    ensures
        feedback_step(v, blocked).1 ==> feedback_step(v, blocked).0.scaled_down,
        feedback_step(v, blocked).0.scaled_down && !r.improved && !(v.stage == RecoveryStage::Gradual && r.in_direct_zone)
            ==> plan_step(feedback_step(v, blocked).0, r).0.scaled_down,
{
}

/// Only a backoff turns the reduced scale on: planning a tick never does,
/// and judging feedback does so exactly when it backs off (or the scale was
/// already reduced). A tick without progress keeps the scale as it was.
pub proof fn lemma_only_backoff_scales_down(v: RecoveryView, r: TickReading, blocked: bool)
    ensures
        plan_step(v, r).0.scaled_down ==> v.scaled_down,
        plan_step(v, r).1 matches TickPlan::Command { scaled_down, .. } ==> (scaled_down ==> v.scaled_down),
        feedback_step(v, blocked).0.scaled_down <==> (v.scaled_down || feedback_step(v, blocked).1),
        !r.improved && !r.settled && v.stage == RecoveryStage::Approach && !r.within_handoff ==> plan_step(v, r).1
            == (TickPlan::Command { direct: false, scaled_down: v.scaled_down, settle_ticks: v.settle_ticks }),
{
}

/// Planning and judging feedback never change the phase (only a handoff,
/// through `start_gradual`, does), nor the confirm length, and never lose
/// a backoff.
pub proof fn lemma_tick_keeps_stage_and_counts(v: RecoveryView, r: TickReading, blocked: bool)
    requires
        v.monitor.backoffs < u32::MAX,
    ensures
        plan_step(v, r).0.stage == v.stage,
        plan_step(v, r).0.monitor.confirm == v.monitor.confirm,
        plan_step(v, r).0.monitor.backoffs == v.monitor.backoffs,
        feedback_step(v, blocked).0.stage == v.stage,
        feedback_step(v, blocked).0.monitor.confirm == v.monitor.confirm,
        feedback_step(v, blocked).1 ==> feedback_step(v, blocked).0.monitor.backoffs == v.monitor.backoffs + 1,
        !feedback_step(v, blocked).1 ==> feedback_step(v, blocked).0.monitor.backoffs == v.monitor.backoffs,
{
}

/// The direct-command count of the gradual phase counts the consecutive
/// direct ticks: it grows by one on each (up to the largest value) and
/// restarts at zero on a stepped tick.
pub proof fn lemma_settle_ticks_count_direct_run(v: RecoveryView, r: TickReading)
    requires
        v.stage == RecoveryStage::Gradual,
        !r.settled,
    ensures
        r.in_direct_zone ==> plan_step(v, r).0.settle_ticks == saturating_inc(v.settle_ticks)
            && plan_step(v, r).1 == (TickPlan::Command { direct: true, scaled_down: false, settle_ticks: saturating_inc(v.settle_ticks) }),
        !r.in_direct_zone ==> plan_step(v, r).0.settle_ticks == 0 && plan_step(v, r).1 is Command,
{
}

} // verus!
