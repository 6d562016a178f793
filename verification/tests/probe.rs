use tcping::probe::{
    classify_outcome, family_preference, make_plan, ConfigError, ProbeOutcome, ProbeRunner,
    RepeatPolicy,
};
use tcping::resolve::IpFamilyPreference;

#[test]
fn zero_count_is_rejected_before_probing() {
    let r = make_plan(0, false, 1000, 2000);
    assert_eq!(r.unwrap_err(), ConfigError::NonPositiveCount);
    let r = make_plan(0, true, 1000, 2000);
    assert_eq!(r.unwrap_err(), ConfigError::NonPositiveCount);
}

#[test]
fn finite_plan_keeps_count_and_durations() {
    let p = make_plan(4, false, 1000, 2000).unwrap();
    assert_eq!(p.repeat, RepeatPolicy::Finite(4));
    assert_eq!(p.interval_ms, 1000);
    assert_eq!(p.timeout_ms, 2000);
}

#[test]
fn forever_plan_is_unbounded() {
    let p = make_plan(4, true, 0, 0).unwrap();
    assert_eq!(p.repeat, RepeatPolicy::Forever);
    assert_eq!(p.interval_ms, 0);
    assert_eq!(p.timeout_ms, 0);
}

#[test]
fn family_flags_map_to_preferences() {
    assert_eq!(
        family_preference(false, false).unwrap(),
        IpFamilyPreference::Any
    );
    assert_eq!(
        family_preference(true, false).unwrap(),
        IpFamilyPreference::IPv4Only
    );
    assert_eq!(
        family_preference(false, true).unwrap(),
        IpFamilyPreference::IPv6Only
    );
    assert_eq!(
        family_preference(true, true).unwrap_err(),
        ConfigError::ConflictingFamilies
    );
}

#[test]
fn outcomes_are_classified_with_their_elapsed_time() {
    assert_eq!(classify_outcome(true, false, 5), ProbeOutcome::Connected(5));
    assert_eq!(
        classify_outcome(false, true, 1000),
        ProbeOutcome::TimedOut(1000)
    );
    assert_eq!(classify_outcome(false, false, 3), ProbeOutcome::Failed(3));
}

fn run_finite(count: u32) -> (u64, u64, bool) {
    let plan = make_plan(count, false, 0, 0).unwrap();
    let mut runner = ProbeRunner::new(plan);
    let mut slept_after_last = false;
    loop {
        runner.record_attempt();
        if runner.is_done() {
            break;
        }
        runner.record_sleep();
        if runner.is_done() {
            slept_after_last = true;
        }
    }
    (runner.attempts, runner.sleeps, slept_after_last)
}

#[test]
fn finite_run_attempts_n_times_and_sleeps_n_minus_1() {
    let (attempts, sleeps, slept_after_last) = run_finite(3);
    assert_eq!(attempts, 3);
    assert_eq!(sleeps, 2);
    assert!(!slept_after_last);
}

#[test]
fn single_attempt_run_never_sleeps() {
    let (attempts, sleeps, slept_after_last) = run_finite(1);
    assert_eq!(attempts, 1);
    assert_eq!(sleeps, 0);
    assert!(!slept_after_last);
}

#[test]
fn unbounded_run_is_never_done_and_always_sleeps() {
    let plan = make_plan(4, true, 0, 0).unwrap();
    let mut runner = ProbeRunner::new(plan);
    for _ in 0..5 {
        assert!(!runner.is_done());
        runner.record_attempt();
        assert!(!runner.is_done());
        runner.record_sleep();
    }
    assert_eq!(runner.attempts, 5);
    assert_eq!(runner.sleeps, 5);
}
