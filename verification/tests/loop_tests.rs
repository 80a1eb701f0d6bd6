use lib::loop_ctrl::{decide, LoopPolicy, LoopRun, StepSignals, StepVerdict, StopReason, Trend};

fn quiet() -> StepSignals {
    StepSignals { breach: false, healthy: false, target_reached: false, timed_out: false, trend: None }
}

fn policy(max_steps: usize) -> LoopPolicy {
    LoopPolicy { max_steps, stop_on_divergence: true, breaker_armed: false, rollback_on_breach: false }
}

/// Runs the pilot over a scripted sequence of observations.
fn run(p: &LoopPolicy, script: &dyn Fn(usize) -> StepSignals) -> (StopReason, usize, Vec<StepVerdict>) {
    let mut r = LoopRun::start();
    let mut verdicts = Vec::new();
    while r.may_step(p) {
        let s = script(r.steps);
        verdicts.push(r.record(p, &s));
    }
    (r.reason(p), r.steps, verdicts)
}

#[test]
fn pilot_respects_max_steps() {
    let (reason, steps, _) = run(&policy(10), &|_| quiet());
    assert_eq!(reason, StopReason::MaxSteps);
    assert_eq!(steps, 10);
}

#[test]
fn pilot_stops_on_target() {
    let (reason, steps, _) = run(&policy(500), &|i| StepSignals { target_reached: i >= 41, ..quiet() });
    assert_eq!(reason, StopReason::TargetReached);
    assert_eq!(steps, 42);
    assert!(steps < 500);
}

#[test]
fn pilot_stops_on_plateau() {
    let (reason, steps, _) = run(&policy(2000), &|i| StepSignals {
        trend: if i >= 14 { Some(if i >= 30 { Trend::Plateau } else { Trend::Other }) } else { None },
        ..quiet()
    });
    assert_eq!(reason, StopReason::Plateau);
    assert_eq!(steps, 31);
}

#[test]
fn divergence_stops_only_when_asked() {
    let diverging = |_: usize| StepSignals { trend: Some(Trend::Diverging), ..quiet() };
    let (reason, steps, _) = run(&policy(20), &diverging);
    assert_eq!((reason, steps), (StopReason::Diverged, 1));
    let lenient = LoopPolicy { stop_on_divergence: false, ..policy(20) };
    let (reason, steps, _) = run(&lenient, &diverging);
    assert_eq!((reason, steps), (StopReason::MaxSteps, 20));
}

#[test]
fn pilot_breaker_trips_with_rollback() {
    let p = LoopPolicy { breaker_armed: true, rollback_on_breach: true, ..policy(400) };
    let (reason, steps, verdicts) = run(&p, &|i| StepSignals { breach: i == 5, healthy: i < 3, ..quiet() });
    assert_eq!(reason, StopReason::CircuitBreaker);
    assert_eq!(steps, 6);
    assert_eq!(verdicts[0], StepVerdict::Continue { checkpoint: true });
    assert_eq!(verdicts[4], StepVerdict::Continue { checkpoint: false });
    assert_eq!(
        verdicts[5],
        StepVerdict::Stop { reason: StopReason::CircuitBreaker, rollback: true }
    );
}

#[test]
fn unarmed_breaker_is_ignored() {
    let s = StepSignals { breach: true, healthy: true, ..quiet() };
    assert_eq!(decide(&policy(5), &s), StepVerdict::Continue { checkpoint: false });
}

#[test]
fn order_of_checks() {
    let p = LoopPolicy { breaker_armed: true, ..policy(5) };
    let all = StepSignals {
        breach: true,
        healthy: false,
        target_reached: true,
        timed_out: true,
        trend: Some(Trend::Plateau),
    };
    assert_eq!(decide(&p, &all), StepVerdict::Stop { reason: StopReason::CircuitBreaker, rollback: false });
    let no_breach = StepSignals { breach: false, ..all };
    assert_eq!(decide(&p, &no_breach), StepVerdict::Stop { reason: StopReason::TargetReached, rollback: false });
    let late = StepSignals { target_reached: false, ..no_breach };
    assert_eq!(decide(&p, &late), StepVerdict::Stop { reason: StopReason::Timeout, rollback: false });
}
