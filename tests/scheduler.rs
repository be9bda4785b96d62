use moonshine_core::{
    interval_or_default, validate_interval, PipelineSchedulerState, TickDecision,
};

#[test]
fn overlapping_triggers_admit_exactly_one() {
    let mut s = PipelineSchedulerState::new(30);
    assert!(s.begin_manual_run().is_ok());
    let second = s.begin_manual_run();
    assert_eq!(second, Err("Pipeline is already running".to_string()));
    assert!(s.is_running());
    s.finish_manual_run();
    assert!(!s.is_running());
    assert!(s.begin_manual_run().is_ok());
    s.finish_manual_run();
    assert!(s.try_acquire());
    assert!(!s.try_acquire());
}

#[test]
fn scheduled_tick_is_dropped_while_a_run_is_in_progress() {
    let mut s = PipelineSchedulerState::new(30);
    assert_eq!(s.scheduled_tick(false), TickDecision::SkipUnconfigured);
    assert!(!s.is_running());
    assert!(s.try_acquire());
    assert_eq!(s.scheduled_tick(true), TickDecision::SkipBusy);
    s.release();
    assert_eq!(s.scheduled_tick(true), TickDecision::Run);
    assert!(s.is_running());
}

#[test]
fn interval_change_moves_next_run_at_once() {
    let mut s = PipelineSchedulerState::new(60);
    assert_eq!(s.next_run(), None);
    let now = 1_700_000_000_000u64;
    assert_eq!(s.plan_next_run(now), now + 60 * 60_000);
    assert_eq!(s.next_run(), Some(now + 3_600_000));
    s.update_interval(5, now + 1_000);
    assert_eq!(s.next_run(), Some(now + 1_000 + 300_000));
    assert_eq!(s.interval_min(), 5);
}

#[test]
fn backfill_runs_every_fifth_scheduled_run() {
    let mut s = PipelineSchedulerState::new(10);
    let mut backfills = Vec::new();
    for run in 1..=12 {
        assert_eq!(s.scheduled_tick(true), TickDecision::Run);
        if s.finish_scheduled_run() {
            backfills.push(run);
        }
        assert!(!s.is_running());
    }
    assert_eq!(backfills, vec![5, 10]);
}

#[test]
fn interval_bounds() {
    assert_eq!(validate_interval(5), Ok(5));
    assert_eq!(validate_interval(60), Ok(60));
    assert_eq!(validate_interval(4), Err("Interval must be between 5 and 60 minutes".to_string()));
    assert!(validate_interval(61).is_err());
    assert_eq!(interval_or_default(Some(15)), 15);
    assert_eq!(interval_or_default(Some(600)), 30);
    assert_eq!(interval_or_default(None), 30);
}
