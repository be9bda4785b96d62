use vstd::prelude::*;

verus! {

/// Shortest interval between scheduled runs, in minutes.
pub const MIN_INTERVAL_MIN: u64 = 5;

/// Longest interval between scheduled runs, in minutes.
pub const MAX_INTERVAL_MIN: u64 = 60;

/// Interval used where none is stored, in minutes.
pub const DEFAULT_INTERVAL_MIN: u64 = 30;

/// Every this many scheduled runs, the backfill pass runs too.
pub const BACKFILL_EVERY: u64 = 5;

/// Latest clock reading, in milliseconds, the scheduler accepts.
pub const MAX_NOW_MS: u64 = 0x7FFF_FFFF_0000_0000;

pub open spec fn valid_interval(m: u64) -> bool {
    MIN_INTERVAL_MIN <= m <= MAX_INTERVAL_MIN
}

/// Checks a requested interval.
pub fn validate_interval(minutes: u64) -> (r: Result<u64, String>)
    ensures
        r is Ok <==> valid_interval(minutes),
        r matches Ok(m) ==> m == minutes,
        r matches Err(e) ==> e@ == "Interval must be between 5 and 60 minutes"@,
{
    if MIN_INTERVAL_MIN <= minutes && minutes <= MAX_INTERVAL_MIN {
        Ok(minutes)
    } else {
        Err("Interval must be between 5 and 60 minutes".to_owned())
    }
}

/// The interval to start with, from the stored one if it is valid.
pub fn interval_or_default(stored: Option<u64>) -> (r: u64)
    ensures
        valid_interval(r),
        stored matches Some(m) ==> (valid_interval(m) ==> r == m) && (!valid_interval(m) ==> r
            == DEFAULT_INTERVAL_MIN),
        stored is None ==> r == DEFAULT_INTERVAL_MIN,
{
    match stored {
        Some(m) => if MIN_INTERVAL_MIN <= m && m <= MAX_INTERVAL_MIN {
            m
        } else {
            DEFAULT_INTERVAL_MIN
        },
        None => DEFAULT_INTERVAL_MIN,
    }
}

/// What a scheduled wake-up does.
#[derive(Clone, Copy, Debug, PartialEq, Eq, Structural)]
pub enum TickDecision {
    /// No provider is configured: the cycle is skipped, which is no error.
    SkipUnconfigured,
    /// Another run holds the run flag: the tick is dropped, not queued.
    SkipBusy,
    /// The run flag is set: run distillation, then linking.
    Run,
}

/// The scheduler's state: its interval, the next planned run, the run flag that
/// admits one pipeline run at a time, and the position in the backfill cycle.
pub struct PipelineSchedulerState {
    interval_min: u64,
    next_run_ms: u64,
    running: bool,
    cycle: u64,
}

pub struct SchedulerView {
    pub interval_min: u64,
    pub next_run_ms: u64,
    pub running: bool,
    pub cycle: u64,
}

impl View for PipelineSchedulerState {
    type V = SchedulerView;

    closed spec fn view(&self) -> SchedulerView {
        SchedulerView {
            interval_min: self.interval_min,
            next_run_ms: self.next_run_ms,
            running: self.running,
            cycle: self.cycle,
        }
    }
}

impl SchedulerView {
    pub open spec fn wf(self) -> bool {
        &&& valid_interval(self.interval_min)
        &&& self.cycle < BACKFILL_EVERY
        &&& self.next_run_ms <= MAX_NOW_MS + MAX_INTERVAL_MIN * 60_000
    }

    /// Whether a run may start: the run flag is clear.
    pub open spec fn may_start(self) -> bool {
        !self.running
    }

    /// The state after an attempt to set the run flag.
    pub open spec fn after_acquire(self) -> SchedulerView {
        SchedulerView { running: true, ..self }
    }

    /// The state after the run flag is cleared.
    pub open spec fn after_release(self) -> SchedulerView {
        SchedulerView { running: false, ..self }
    }

    /// The next run, `interval` minutes after `now`.
    pub open spec fn deadline(interval: u64, now: u64) -> u64 {
        (now + interval * 60_000) as u64
    }
}

/// The error of a run request refused because a run is in progress.
pub open spec fn already_running_message() -> Seq<char> {
    "Pipeline is already running"@
}

/// A manual run, from its start to its end, seen from the scheduler: whether
/// it started, and the state once it has ended. A refused start runs nothing
/// and ends nothing.
pub open spec fn manual_run(s: SchedulerView) -> (bool, SchedulerView) {
    if s.may_start() {
        (true, s.after_acquire().after_release())
    } else {
        (false, s)
    }
}

/// A manual run leaves the run flag as it found it: cleared after a run
/// that it started, still held by the other run after a refusal. Of two
/// manual runs that overlap from a free flag, the one that starts first
/// runs and the other is refused.
pub proof fn law_manual_run_releases(s: SchedulerView)
    ensures
        manual_run(s).1.running == s.running,
        !s.running ==> manual_run(s).0 && !manual_run(s).1.running,
        !s.running ==> !manual_run(s.after_acquire()).0,
        s.running ==> !manual_run(s).0 && manual_run(s).1 == s,
{
}

/// Two runs never overlap: of two attempts to run made while no run is in
/// progress, the first sets the run flag and the second is refused; while a run
/// is in progress, every attempt is refused; once the run flag is cleared, an
/// attempt succeeds again.
pub proof fn law_one_run_at_a_time(s: SchedulerView)
    ensures
        s.may_start() ==> !s.after_acquire().may_start(),
        !s.may_start() ==> s.after_acquire() == s,
        s.after_acquire().after_release().may_start(),
{
}

impl PipelineSchedulerState {
    pub open spec fn wf(&self) -> bool {
        self@.wf()
    }

    /// A scheduler that is idle, with no run planned yet.
    pub fn new(interval_min: u64) -> (r: PipelineSchedulerState)
        requires
            valid_interval(interval_min),
        ensures
            r.wf(),
            r@ == (SchedulerView { interval_min, next_run_ms: 0, running: false, cycle: 0 }),
    {
        PipelineSchedulerState { interval_min, next_run_ms: 0, running: false, cycle: 0 }
    }

    pub fn interval_min(&self) -> (r: u64)
        ensures
            r == self@.interval_min,
    {
        self.interval_min
    }

    pub fn is_running(&self) -> (r: bool)
        ensures
            r == self@.running,
    {
        self.running
    }

    /// The planned time of the next run, once one is planned.
    pub fn next_run(&self) -> (r: Option<u64>)
        ensures
            r is None <==> self@.next_run_ms == 0,
            r matches Some(t) ==> t == self@.next_run_ms,
    {
        if self.next_run_ms == 0 {
            None
        } else {
            Some(self.next_run_ms)
        }
    }

    /// A new interval takes effect at once: the next run is planned from
    /// `now` with it, without waiting out the old interval.
    pub fn update_interval(&mut self, minutes: u64, now_ms: u64)
        requires
            old(self).wf(),
            valid_interval(minutes),
            now_ms <= MAX_NOW_MS,
        ensures
            final(self).wf(),
            final(self)@ == (SchedulerView {
                interval_min: minutes,
                next_run_ms: SchedulerView::deadline(minutes, now_ms),
                ..old(self)@
            }),
    {
        self.interval_min = minutes;
        self.next_run_ms = now_ms + minutes * 60_000;
    }

    /// Starts a wait: plans the next run one interval after `now` and
    /// returns its time.
    pub fn plan_next_run(&mut self, now_ms: u64) -> (r: u64)
        requires
            old(self).wf(),
            now_ms <= MAX_NOW_MS,
        ensures
            final(self).wf(),
            r == SchedulerView::deadline(old(self)@.interval_min, now_ms),
            final(self)@ == (SchedulerView { next_run_ms: r, ..old(self)@ }),
    {
        self.next_run_ms = now_ms + self.interval_min * 60_000;
        self.next_run_ms
    }

    /// Sets the run flag if it is free (compare and set); returns whether
    /// it was taken.
    pub fn try_acquire(&mut self) -> (r: bool)
        requires
            old(self).wf(),
        ensures
            final(self).wf(),
            r == old(self)@.may_start(),
            final(self)@ == old(self)@.after_acquire(),
    {
        if self.running {
            false
        } else {
            self.running = true;
            true
        }
    }

    /// Clears the run flag; done on every exit of a run.
    pub fn release(&mut self)
        requires
            old(self).wf(),
        ensures
            final(self).wf(),
            final(self)@ == old(self)@.after_release(),
    {
        self.running = false;
    }

    /// Starts a manual run: sets the run flag, or fails at once with the
    /// "already running" error where a run is in progress, changing nothing.
    /// The caller runs distillation and linking and then calls
    /// `finish_manual_run`, on every exit of the run.
    pub fn begin_manual_run(&mut self) -> (r: Result<(), String>)
        requires
            old(self).wf(),
        ensures
            final(self).wf(),
            r is Ok <==> old(self)@.may_start(),
            r matches Err(e) ==> e@ == already_running_message(),
            final(self)@ == old(self)@.after_acquire(),
    {
        if self.try_acquire() {
            Ok(())
        } else {
            Err("Pipeline is already running".to_owned())
        }
    }

    /// Ends a manual run, whatever its outcome: clears the run flag.
    pub fn finish_manual_run(&mut self)
        requires
            old(self).wf(),
        ensures
            final(self).wf(),
            final(self)@ == old(self)@.after_release(),
            !final(self)@.running,
    {
        self.release();
    }

    /// A scheduled wake-up at the planned time: skips where no provider is
    /// configured, is dropped where a run holds the run flag, else takes it.
    pub fn scheduled_tick(&mut self, configured: bool) -> (r: TickDecision)
        requires
            old(self).wf(),
        ensures
            final(self).wf(),
            !configured ==> r == TickDecision::SkipUnconfigured && final(self)@ == old(self)@,
            configured && !old(self)@.may_start() ==> r == TickDecision::SkipBusy && final(self)@
                == old(self)@,
            configured && old(self)@.may_start() ==> r == TickDecision::Run && final(self)@
                == old(self)@.after_acquire(),
    {
        if !configured {
            TickDecision::SkipUnconfigured
        } else if self.try_acquire() {
            TickDecision::Run
        } else {
            TickDecision::SkipBusy
        }
    }

    /// Ends a scheduled run: clears the run flag and counts the cycle.
    /// Returns whether this cycle also runs the backfill pass, which is so
    /// on every fifth scheduled run.
    pub fn finish_scheduled_run(&mut self) -> (r: bool)
        requires
            old(self).wf(),
        ensures
            final(self).wf(),
            final(self)@ == (SchedulerView {
                running: false,
                cycle: ((old(self)@.cycle + 1) % (BACKFILL_EVERY as int)) as u64,
                ..old(self)@
            }),
            r == (final(self)@.cycle == 0),
    {
        self.running = false;
        self.cycle = (self.cycle + 1) % BACKFILL_EVERY;
        self.cycle == 0
    }
}

/// The backfill cycle position after `n` scheduled runs of a new scheduler,
/// each counted as `finish_scheduled_run` counts it.
pub open spec fn cycle_after_runs(n: nat) -> int
    decreases n,
{
    if n == 0 {
        0
    } else {
        (cycle_after_runs((n - 1) as nat) + 1) % (BACKFILL_EVERY as int)
    }
}

/// Backfill runs on scheduled runs 5, 10, 15, ... and on no other: after
/// `n` runs the cycle position is `n mod 5`, and a run triggers backfill
/// exactly when that position is back at 0.
pub proof fn law_backfill_every_fifth_run(n: nat)
    ensures
        cycle_after_runs(n) == (n as int) % (BACKFILL_EVERY as int),
        n > 0 ==> (cycle_after_runs(n) == 0 <==> (n as int) % (BACKFILL_EVERY as int) == 0),
    decreases n,
{
    if n > 0 {
        law_backfill_every_fifth_run((n - 1) as nat);
    }
}

} // verus!
