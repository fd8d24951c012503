use vstd::prelude::*;

verus! {

/// The counting state of a stall detector.
pub ghost struct StallView {
    /// Consecutive blocked ticks needed to trip.
    pub confirm_ticks: u32,
    /// Consecutive blocked ticks seen so far.
    pub streak: u32,
    pub enabled: bool,
}

/// One tick of stall counting: the state after the tick and whether the
/// stall trips. A disabled detector ignores ticks; a blocked tick extends
/// the run, any other tick ends it.
pub open spec fn stall_step(v: StallView, blocked: bool) -> (StallView, bool) {
    if !v.enabled {
        (v, false)
    } else if blocked {
        let s = (v.streak + 1) as u32;
        (StallView { streak: s, ..v }, s >= v.confirm_ticks)
    } else {
        (StallView { streak: 0, ..v }, false)
    }
}

/// Counts consecutive "blocked" control ticks (high torque at near-zero
/// velocity, judged by the caller against its thresholds) and trips once
/// the run reaches the configured length.
pub struct StallDetector {
    confirm_ticks: u32,
    streak: u32,
    enabled: bool,
}

impl View for StallDetector {
    type V = StallView;

    closed spec fn view(&self) -> StallView {
        StallView { confirm_ticks: self.confirm_ticks, streak: self.streak, enabled: self.enabled }
    }
}

impl StallDetector {
    /// Default run length that confirms a stall.
    pub fn default_confirm_ticks() -> (n: u32)
        ensures
            n == 3,
    {
        3
    }

    /// A detector, enabled, with no blocked ticks counted.
    pub fn new(confirm_ticks: u32) -> (d: Self)
        ensures
            d@ == (StallView { confirm_ticks, streak: 0, enabled: true }),
    {
        StallDetector { confirm_ticks, streak: 0, enabled: true }
    }

    /// Feeds one tick; returns `true` when a stall trip fires.
    pub fn update(&mut self, looks_blocked: bool) -> (tripped: bool)
        requires
            old(self)@.enabled && looks_blocked ==> old(self)@.streak < u32::MAX,
        ensures
            (final(self)@, tripped) == stall_step(old(self)@, looks_blocked),
    {
        if !self.enabled {
            return false;
        }
        if looks_blocked {
            self.streak = self.streak + 1;
            self.streak >= self.confirm_ticks
        } else {
            self.streak = 0;
            false
        }
    }

    /// Resets the consecutive stall counter to zero.
    pub fn reset(&mut self)
        ensures
            final(self)@ == (StallView { streak: 0, ..old(self)@ }),
    {
        self.streak = 0;
    }

    /// Re-arms the detector with a fresh count.
    pub fn enable(&mut self)
        ensures
            final(self)@ == (StallView { streak: 0, enabled: true, ..old(self)@ }),
    {
        self.enabled = true;
        self.streak = 0;
    }

    /// Turns the detector off; it then never trips.
    pub fn disable(&mut self)
        ensures
            final(self)@ == (StallView { streak: 0, enabled: false, ..old(self)@ }),
    {
        self.enabled = false;
        self.streak = 0;
    }

    pub fn is_enabled(&self) -> (b: bool)
        ensures
            b == self@.enabled,
    {
        self.enabled
    }

    /// The run length that confirms a stall.
    pub fn confirm_ticks(&self) -> (n: u32)
        ensures
            n == self@.confirm_ticks,
    {
        self.confirm_ticks
    }

    /// Blocked ticks counted so far.
    pub fn streak(&self) -> (n: u32)
        ensures
            n == self@.streak,
    {
        self.streak
    }

    /// Replaces the run length and restarts the count.
    pub fn set_confirm_ticks(&mut self, confirm_ticks: u32)
        ensures
            final(self)@ == (StallView { confirm_ticks, streak: 0, ..old(self)@ }),
    {
        self.confirm_ticks = confirm_ticks;
        self.streak = 0;
    }
}

/// The trip results of feeding `ticks` one after another, and the state after.
pub open spec fn stall_run(v: StallView, ticks: Seq<bool>) -> (StallView, Seq<bool>)
    decreases ticks.len(),
{
    if ticks.len() == 0 {
        (v, seq![])
    } else {
        let (mid, outs) = stall_run(v, ticks.drop_last());
        let (last, out) = stall_step(mid, ticks.last());
        (last, outs.push(out))
    }
}

/// `n` blocked ticks in a row.
pub open spec fn blocked_ticks(n: nat) -> Seq<bool> {
    Seq::new(n, |i: int| true)
}

/// From a fresh count, a run of `n` blocked ticks trips at exactly the ticks
/// whose position (counting from one) reaches the confirm length, and the
/// count then equals `n`.
pub proof fn lemma_blocked_run_trips_at_confirm(v: StallView, n: nat)
    requires
        v.enabled,
        v.streak == 0,
        n < u32::MAX,
    ensures
        stall_run(v, blocked_ticks(n)).0.streak == n,
        stall_run(v, blocked_ticks(n)).0.enabled,
        stall_run(v, blocked_ticks(n)).0.confirm_ticks == v.confirm_ticks,
        stall_run(v, blocked_ticks(n)).1.len() == n,
        forall|i: int| 0 <= i < n ==> #[trigger] stall_run(v, blocked_ticks(n)).1[i] == (i + 1 >= v.confirm_ticks),
    decreases n,
{
    let t = blocked_ticks(n);
    if n > 0 {
        lemma_blocked_run_trips_at_confirm(v, (n - 1) as nat);
        assert(t.drop_last() =~= blocked_ticks((n - 1) as nat));
    } else {
        assert(t =~= seq![]);
    }
}

/// A disabled detector never trips and keeps its state, whatever it is fed.
pub proof fn lemma_disabled_never_trips(v: StallView, ticks: Seq<bool>)
    requires
        !v.enabled,
    ensures
        stall_run(v, ticks).0 == v,
        forall|i: int| 0 <= i < ticks.len() ==> !#[trigger] stall_run(v, ticks).1[i],
        stall_run(v, ticks).1.len() == ticks.len(),
    decreases ticks.len(),
{
    if ticks.len() > 0 {
        lemma_disabled_never_trips(v, ticks.drop_last());
    }
}

/// A tick that is not blocked always ends the run: the count restarts and
/// nothing trips, so a trip needs `confirm_ticks` blocked ticks in a row.
pub proof fn lemma_unblocked_tick_restarts(v: StallView)
    ensures
        !stall_step(v, false).1,
        v.enabled ==> stall_step(v, false).0.streak == 0,
{
}

/// Length of the run of blocked ticks ending at `ticks[i]` (0 when that
/// tick is not blocked, or `i` is out of range).
pub open spec fn blocked_run_ending(ticks: Seq<bool>, i: int) -> nat
    decreases i + 1,
{
    if i < 0 || i >= ticks.len() || !ticks[i] {
        0
    } else {
        1 + blocked_run_ending(ticks, i - 1)
    }
}

/// A run ending at `i` depends only on the ticks up to `i`, and is at most `i + 1` long.
proof fn lemma_blocked_run_prefix(ticks: Seq<bool>, n: int, i: int)
    requires
        0 <= i < n <= ticks.len(),
    ensures
        blocked_run_ending(ticks.take(n), i) == blocked_run_ending(ticks, i),
        blocked_run_ending(ticks, i) <= i + 1,
    decreases i + 1,
{
    let t = ticks.take(n);
    assert(t[i] == ticks[i]);
    if i == 0 {
        assert(blocked_run_ending(t, -1) == 0);
        assert(blocked_run_ending(ticks, -1) == 0);
    } else {
        lemma_blocked_run_prefix(ticks, n, i - 1);
    }
}

/// From a fresh count (as after `new`, `reset`, `enable` and
/// `set_confirm_ticks`), an enabled detector fed any ticks trips at tick `i`
/// exactly when tick `i` is blocked and the run of blocked ticks ending at
/// `i` is at least `confirm_ticks` long, and its count is then the run
/// ending at the last tick. (A disabled one never trips: `lemma_disabled_never_trips`.)
pub proof fn lemma_trips_exactly_on_long_runs(v: StallView, ticks: Seq<bool>)
    requires
        v.enabled,
        v.streak == 0,
        ticks.len() < u32::MAX,
    ensures
        stall_run(v, ticks).1.len() == ticks.len(),
        stall_run(v, ticks).0.enabled,
        stall_run(v, ticks).0.confirm_ticks == v.confirm_ticks,
        stall_run(v, ticks).0.streak == blocked_run_ending(ticks, ticks.len() - 1),
        forall|i: int|
            0 <= i < ticks.len() ==> #[trigger] stall_run(v, ticks).1[i] == (ticks[i] && blocked_run_ending(ticks, i)
                >= v.confirm_ticks),
    decreases ticks.len(),
{
    if ticks.len() > 0 {
        let n = ticks.len() as int;
        let pre = ticks.drop_last();
        lemma_trips_exactly_on_long_runs(v, pre);
        assert(pre =~= ticks.take(n - 1));
        assert forall|i: int| 0 <= i < n - 1 implies blocked_run_ending(pre, i) == blocked_run_ending(ticks, i) by {
            lemma_blocked_run_prefix(ticks, n - 1, i);
        }
        let prev = if n >= 2 { blocked_run_ending(ticks, n - 2) } else { 0 };
        if n >= 2 {
            lemma_blocked_run_prefix(ticks, n, n - 2);
            assert(stall_run(v, pre).0.streak == prev);
        } else {
            assert(pre.len() == 0);
            assert(stall_run(v, pre).0 == v);
        }
        assert(ticks.last() == ticks[n - 1]);
        assert(blocked_run_ending(ticks, n - 1) == if ticks[n - 1] { prev + 1 } else { 0 });
        let (mid, outs) = stall_run(v, pre);
        assert forall|i: int| 0 <= i < ticks.len() implies #[trigger] stall_run(v, ticks).1[i] == (ticks[i]
            && blocked_run_ending(ticks, i) >= v.confirm_ticks) by {
            if i < n - 1 {
                assert(stall_run(v, ticks).1[i] == outs[i]);
                assert(outs[i] == stall_run(v, pre).1[i]);
                assert(pre[i] == ticks[i]);
            }
        }
    }
}

/// The state of the resistance monitor used while homing.
pub ghost struct ResistanceView {
    /// Consecutive blocked ticks that trigger a backoff (at least one).
    pub confirm: u32,
    /// Consecutive blocked ticks seen since the last backoff or progress.
    pub streak: u32,
    /// Backoffs triggered so far.
    pub backoffs: u32,
}

/// One homing control tick: a blocked tick extends the run and, once the run
/// reaches `confirm`, triggers a backoff and starts a new run; any other tick
/// ends the run.
pub open spec fn resistance_step(v: ResistanceView, blocked: bool) -> (ResistanceView, bool) {
    if blocked {
        let s = (v.streak + 1) as u32;
        if s >= v.confirm {
            (ResistanceView { streak: 0, backoffs: (v.backoffs + 1) as u32, ..v }, true)
        } else {
            (ResistanceView { streak: s, ..v }, false)
        }
    } else {
        (ResistanceView { streak: 0, ..v }, false)
    }
}

/// Watches homing motion for resistance (high torque while barely moving,
/// judged by the caller) and decides when to hold and back off.
pub struct ResistanceMonitor {
    confirm: u32,
    streak: u32,
    backoffs: u32,
}

impl View for ResistanceMonitor {
    type V = ResistanceView;

    closed spec fn view(&self) -> ResistanceView {
        ResistanceView { confirm: self.confirm, streak: self.streak, backoffs: self.backoffs }
    }
}

impl ResistanceMonitor {
    #[verifier::type_invariant]
    spec fn run_shorter_than_confirm(&self) -> bool {
        &&& self.confirm >= 1
        &&& self.streak < self.confirm
    }

    /// A monitor that backs off after `confirm_ticks` blocked ticks in a row
    /// (at least one).
    pub fn new(confirm_ticks: u32) -> (m: ResistanceMonitor)
        ensures
            m@ == (ResistanceView { confirm: if confirm_ticks >= 1 { confirm_ticks } else { 1 }, streak: 0, backoffs: 0 }),
    {
        let confirm = if confirm_ticks >= 1 { confirm_ticks } else { 1 };
        ResistanceMonitor { confirm, streak: 0, backoffs: 0 }
    }

    /// Feeds one tick; returns `true` when the joint must hold and back off.
    pub fn observe(&mut self, looks_blocked: bool) -> (back_off: bool)
        requires
            old(self)@.backoffs < u32::MAX,
        ensures
            (final(self)@, back_off) == resistance_step(old(self)@, looks_blocked),
            final(self)@.streak < final(self)@.confirm,
    {
        proof {
            use_type_invariant(&*self);
        }
        if looks_blocked {
            let s = self.streak + 1;
            if s >= self.confirm {
                self.streak = 0;
                self.backoffs = self.backoffs + 1;
                true
            } else {
                self.streak = s;
                false
            }
        } else {
            self.streak = 0;
            false
        }
    }

    /// Measurable progress toward the target: the run of blocked ticks ends.
    pub fn progress(&mut self)
        ensures
            final(self)@ == (ResistanceView { streak: 0, ..old(self)@ }),
    {
        proof {
            use_type_invariant(&*self);
        }
        self.streak = 0;
    }

    /// Backoffs triggered so far.
    pub fn backoffs(&self) -> (n: u32)
        ensures
            n == self@.backoffs,
    {
        self.backoffs
    }
}

/// A tick that is not blocked ends the resistance run: the count restarts,
/// nothing backs off and no backoff is added; a backoff needs `confirm`
/// blocked ticks in a row.
pub proof fn lemma_unblocked_tick_ends_resistance_run(v: ResistanceView)
    ensures
        resistance_step(v, false).0.streak == 0,
        !resistance_step(v, false).1,
        resistance_step(v, false).0.backoffs == v.backoffs,
        resistance_step(v, false).0.confirm == v.confirm,
{
}

/// The backoffs of feeding `ticks` one after another, and the state after.
pub open spec fn resistance_run(v: ResistanceView, ticks: Seq<bool>) -> (ResistanceView, Seq<bool>)
    decreases ticks.len(),
{
    if ticks.len() == 0 {
        (v, seq![])
    } else {
        let (mid, outs) = resistance_run(v, ticks.drop_last());
        let (last, out) = resistance_step(mid, ticks.last());
        (last, outs.push(out))
    }
}

/// From a fresh run, `n` blocked ticks back off at exactly every
/// `confirm`-th tick, and the count of backoffs is `n / confirm`.
pub proof fn lemma_blocked_run_backs_off_every_confirm(v: ResistanceView, n: nat)
    requires
        v.confirm >= 1,
        v.streak == 0,
        v.backoffs + n < u32::MAX,
    ensures
        resistance_run(v, blocked_ticks(n)).0.streak == n % (v.confirm as nat),
        resistance_run(v, blocked_ticks(n)).0.backoffs == v.backoffs + n / (v.confirm as nat),
        resistance_run(v, blocked_ticks(n)).0.confirm == v.confirm,
        resistance_run(v, blocked_ticks(n)).1.len() == n,
        forall|i: int| 0 <= i < n ==> #[trigger] resistance_run(v, blocked_ticks(n)).1[i] == ((i + 1) % (v.confirm as int) == 0),
    decreases n,
{
    let t = blocked_ticks(n);
    let c = v.confirm as nat;
    if n > 0 {
        lemma_blocked_run_backs_off_every_confirm(v, (n - 1) as nat);
        assert(t.drop_last() =~= blocked_ticks((n - 1) as nat));
        let m = (n - 1) as nat;
        assert(m % c + 1 <= c) by (nonlinear_arith)
            requires c >= 1;
        if m % c + 1 == c {
            assert(n % c == 0 && n / c == m / c + 1) by (nonlinear_arith)
                requires m % c + 1 == c, n == m + 1, c >= 1;
        } else {
            assert(n % c == m % c + 1 && n / c == m / c) by (nonlinear_arith)
                requires m % c + 1 < c, n == m + 1, c >= 1;
        }
    } else {
        assert(t =~= seq![]);
    }
}

/// From a fresh run, fed any ticks, the monitor backs off at tick `i`
/// exactly when tick `i` is blocked and the run of blocked ticks ending at
/// `i` is a multiple of `confirm` (a run of `confirm`, `2 * confirm`, ...
/// blocked ticks; any unblocked tick starts the count again), and its count
/// is the run ending at the last tick, modulo `confirm`.
pub proof fn lemma_backs_off_on_run_multiples(v: ResistanceView, ticks: Seq<bool>)
    requires
        v.confirm >= 1,
        v.streak == 0,
        v.backoffs + ticks.len() < u32::MAX,
    ensures
        resistance_run(v, ticks).1.len() == ticks.len(),
        resistance_run(v, ticks).0.confirm == v.confirm,
        resistance_run(v, ticks).0.backoffs <= v.backoffs + ticks.len(),
        resistance_run(v, ticks).0.streak == blocked_run_ending(ticks, ticks.len() - 1) % (v.confirm as nat),
        forall|i: int|
            0 <= i < ticks.len() ==> #[trigger] resistance_run(v, ticks).1[i] == (ticks[i] && blocked_run_ending(ticks, i)
                % (v.confirm as nat) == 0),
    decreases ticks.len(),
{
    let c = v.confirm as nat;
    if ticks.len() > 0 {
        let n = ticks.len() as int;
        let pre = ticks.drop_last();
        lemma_backs_off_on_run_multiples(v, pre);
        assert(pre =~= ticks.take(n - 1));
        assert forall|i: int| 0 <= i < n - 1 implies blocked_run_ending(pre, i) == blocked_run_ending(ticks, i) by {
            lemma_blocked_run_prefix(ticks, n - 1, i);
        }
        let prev: nat = if n >= 2 { blocked_run_ending(ticks, n - 2) } else { 0 };
        if n >= 2 {
            lemma_blocked_run_prefix(ticks, n, n - 2);
        } else {
            assert(pre.len() == 0);
            assert(resistance_run(v, pre).0 == v);
            assert(blocked_run_ending(ticks, n - 2) == 0);
            assert(0nat % c == 0) by (nonlinear_arith)
                requires c >= 1;
        }
        assert(blocked_run_ending(ticks, n - 2) == prev);
        let (mid, outs) = resistance_run(v, pre);
        assert(mid.streak == prev % c);
        assert(ticks.last() == ticks[n - 1]);
        assert(blocked_run_ending(ticks, n - 1) == if ticks[n - 1] { prev + 1 } else { 0 });
        assert(prev % c < c) by (nonlinear_arith)
            requires c >= 1;
        if ticks[n - 1] {
            if prev % c + 1 == c {
                assert((prev + 1) % c == 0) by (nonlinear_arith)
                    requires prev % c + 1 == c, c >= 1;
            } else {
                assert((prev + 1) % c == prev % c + 1) by (nonlinear_arith)
                    requires prev % c + 1 < c, c >= 1;
            }
        } else {
            assert(0nat % c == 0) by (nonlinear_arith)
                requires c >= 1;
        }
        assert forall|i: int| 0 <= i < ticks.len() implies #[trigger] resistance_run(v, ticks).1[i] == (ticks[i]
            && blocked_run_ending(ticks, i) % c == 0) by {
            if i < n - 1 {
                assert(resistance_run(v, ticks).1[i] == outs[i]);
                assert(pre[i] == ticks[i]);
            }
        }
    }
}

/// Fault flags reported in a motor feedback frame.
pub struct FaultFlags {
    pub undervoltage: bool,
    pub overcurrent: bool,
    pub over_temperature: bool,
    pub magnetic_encoding: bool,
    pub hall_encoding: bool,
    pub uncalibrated: bool,
}

/// `[name]` when `on`, else nothing.
pub open spec fn name_if(on: bool, name: Seq<char>) -> Seq<Seq<char>> {
    if on {
        seq![name]
    } else {
        seq![]
    }
}

/// The names of the raised faults, in reporting order.
pub open spec fn fault_list(f: FaultFlags) -> Seq<Seq<char>> {
    name_if(f.undervoltage, "undervoltage"@) + name_if(f.overcurrent, "overcurrent"@) + name_if(
        f.over_temperature,
        "over_temperature"@,
    ) + name_if(f.magnetic_encoding, "magnetic_encoding"@) + name_if(f.hall_encoding, "hall_encoding"@)
        + name_if(f.uncalibrated, "uncalibrated"@)
}

/// Names of static strings.
pub open spec fn str_views(v: Seq<&'static str>) -> Seq<Seq<char>> {
    v.map_values(|s: &'static str| s@)
}

/// Membership in two sequences placed one after the other.
proof fn lemma_concat_contains(a: Seq<Seq<char>>, b: Seq<Seq<char>>, x: Seq<char>)
    ensures
        (a + b).contains(x) <==> (a.contains(x) || b.contains(x)),
{
    if (a + b).contains(x) {
        let k = choose|k: int| 0 <= k < (a + b).len() && (a + b)[k] == x;
        if k < a.len() {
            assert(a[k] == x);
        } else {
            assert(b[k - a.len()] == x);
        }
    }
    if a.contains(x) {
        let k = choose|k: int| 0 <= k < a.len() && a[k] == x;
        assert((a + b)[k] == x);
    }
    if b.contains(x) {
        let k = choose|k: int| 0 <= k < b.len() && b[k] == x;
        assert((a + b)[a.len() + k] == x);
    }
}

/// A name is in `name_if(on, n)` exactly when `on` and it is `n`.
proof fn lemma_name_if_contains(on: bool, n: Seq<char>, x: Seq<char>)
    ensures
        name_if(on, n).contains(x) <==> (on && x == n),
{
    if on {
        assert(name_if(on, n)[0] == n);
    }
}

/// Membership in the fault list: a raised flag's name.
proof fn lemma_fault_list_contains(f: FaultFlags, x: Seq<char>)
    ensures
        fault_list(f).contains(x) <==> ((x == "undervoltage"@ && f.undervoltage) || (x == "overcurrent"@
            && f.overcurrent) || (x == "over_temperature"@ && f.over_temperature) || (x == "magnetic_encoding"@
            && f.magnetic_encoding) || (x == "hall_encoding"@ && f.hall_encoding) || (x == "uncalibrated"@
            && f.uncalibrated)),
{
    let s0 = name_if(f.undervoltage, "undervoltage"@);
    let s1 = name_if(f.overcurrent, "overcurrent"@);
    let s2 = name_if(f.over_temperature, "over_temperature"@);
    let s3 = name_if(f.magnetic_encoding, "magnetic_encoding"@);
    let s4 = name_if(f.hall_encoding, "hall_encoding"@);
    let s5 = name_if(f.uncalibrated, "uncalibrated"@);
    lemma_concat_contains(s0, s1, x);
    lemma_concat_contains(s0 + s1, s2, x);
    lemma_concat_contains(s0 + s1 + s2, s3, x);
    lemma_concat_contains(s0 + s1 + s2 + s3, s4, x);
    lemma_concat_contains(s0 + s1 + s2 + s3 + s4, s5, x);
    lemma_name_if_contains(f.undervoltage, "undervoltage"@, x);
    lemma_name_if_contains(f.overcurrent, "overcurrent"@, x);
    lemma_name_if_contains(f.over_temperature, "over_temperature"@, x);
    lemma_name_if_contains(f.magnetic_encoding, "magnetic_encoding"@, x);
    lemma_name_if_contains(f.hall_encoding, "hall_encoding"@, x);
    lemma_name_if_contains(f.uncalibrated, "uncalibrated"@, x);
}

/// The number of raised fault flags.
pub open spec fn raised_count(f: FaultFlags) -> int {
    (if f.undervoltage { 1int } else { 0 }) + (if f.overcurrent { 1int } else { 0 }) + (if f.over_temperature {
        1int
    } else {
        0
    }) + (if f.magnetic_encoding { 1int } else { 0 }) + (if f.hall_encoding { 1int } else { 0 }) + (if f.uncalibrated {
        1int
    } else {
        0
    })
}

/// Every raised fault is named and no other: each name is present exactly
/// when its flag is raised, and there is one name per raised flag.
pub proof fn lemma_fault_names_are_raised_flags(f: FaultFlags)
    ensures
        fault_list(f).contains("undervoltage"@) <==> f.undervoltage,
        fault_list(f).contains("overcurrent"@) <==> f.overcurrent,
        fault_list(f).contains("over_temperature"@) <==> f.over_temperature,
        fault_list(f).contains("magnetic_encoding"@) <==> f.magnetic_encoding,
        fault_list(f).contains("hall_encoding"@) <==> f.hall_encoding,
        fault_list(f).contains("uncalibrated"@) <==> f.uncalibrated,
        fault_list(f).len() == raised_count(f),
{
    reveal_strlit("undervoltage");
    reveal_strlit("overcurrent");
    reveal_strlit("over_temperature");
    reveal_strlit("magnetic_encoding");
    reveal_strlit("hall_encoding");
    reveal_strlit("uncalibrated");
    let n0 = "undervoltage"@;
    let n1 = "overcurrent"@;
    let n2 = "over_temperature"@;
    let n3 = "magnetic_encoding"@;
    let n4 = "hall_encoding"@;
    let n5 = "uncalibrated"@;
    assert(n0.len() == 12 && n1.len() == 11 && n2.len() == 16 && n3.len() == 17 && n4.len() == 13 && n5.len() == 12);
    assert(n0[2] != n5[2]);
    lemma_fault_list_contains(f, n0);
    lemma_fault_list_contains(f, n1);
    lemma_fault_list_contains(f, n2);
    lemma_fault_list_contains(f, n3);
    lemma_fault_list_contains(f, n4);
    lemma_fault_list_contains(f, n5);
}

fn push_if(out: &mut Vec<&'static str>, on: bool, name: &'static str)
    ensures
        str_views(final(out)@) == str_views(old(out)@) + name_if(on, name@),
{
    let ghost before = out@;
    if on {
        out.push(name);
        assert(str_views(out@) =~= str_views(before) + name_if(on, name@));
    } else {
        assert(str_views(out@) =~= str_views(before) + name_if(on, name@));
    }
}

/// The names of the faults a feedback frame raises, in reporting order.
pub fn fault_names(f: &FaultFlags) -> (names: Vec<&'static str>)
    ensures
        str_views(names@) == fault_list(*f),
{
    let mut out: Vec<&'static str> = Vec::new();
    assert(str_views(out@) =~= seq![]);
    push_if(&mut out, f.undervoltage, "undervoltage");
    push_if(&mut out, f.overcurrent, "overcurrent");
    push_if(&mut out, f.over_temperature, "over_temperature");
    push_if(&mut out, f.magnetic_encoding, "magnetic_encoding");
    push_if(&mut out, f.hall_encoding, "hall_encoding");
    push_if(&mut out, f.uncalibrated, "uncalibrated");
    assert(str_views(out@) =~= fault_list(*f));
    out
}

} // verus!
