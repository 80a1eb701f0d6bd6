use lib::llm::{LlmBudget, LlmClient, LlmError, LlmProgress, LlmStop, MockLlmClient};

fn budget(max_iters: usize, patience: usize, max_llm_calls: usize) -> LlmBudget {
    LlmBudget { max_iters, patience, k: 4, max_llm_calls }
}

/// Drives the bookkeeping as the ascent does, with a scripted outcome per
/// iteration: `None` for a failed call, else (safe, better) per candidate.
fn drive(b: &LlmBudget, outcome: &dyn Fn(usize) -> Option<Vec<(bool, bool)>>) -> LlmProgress {
    let mut p = LlmProgress::start();
    loop {
        if !p.begin_iteration(b, false) {
            break;
        }
        match outcome(p.next_iter) {
            None => p.record_failed_call(b),
            Some(cands) => {
                for (safe, better) in cands {
                    let adopted = p.record_candidate(safe, better);
                    assert_eq!(adopted, safe && better);
                }
                p.end_iteration(b, false, false);
            }
        }
        if p.stop.is_some() {
            break;
        }
    }
    p
}

#[test]
fn mock_client_answers_or_fails() {
    let c = MockLlmClient::new(|p: &str, k: usize| vec![format!("{p}:{k}")]);
    assert_eq!(c.propose("n", 2), Ok(vec!["n:2".to_string()]));
    let empty = MockLlmClient::new(|_p: &str, _k: usize| Vec::new());
    assert_eq!(empty.propose("n", 2), Err(LlmError::Empty));
}

#[test]
fn progress_caps_llm_calls() {
    let b = budget(10_000, 0, 3);
    let p = drive(&b, &|_| Some(vec![(true, false)]));
    assert!(p.llm_calls <= 3, "budget d'appels dépassé: {}", p.llm_calls);
    assert_eq!(p.stop, Some(LlmStop::BudgetExhausted));
    assert_eq!(p.iters, 3);
    assert_eq!(p.llm_calls, p.iters);
    assert!(!p.timed_out);
}

#[test]
fn failed_calls_consume_budget() {
    let b = budget(5, 0, 100);
    let p = drive(&b, &|_| None);
    assert_eq!(p.stop, Some(LlmStop::MaxIters));
    assert_eq!(p.accepted, 0);
    assert_eq!(p.llm_calls, 5);
    assert_eq!(p.iters, 5);
}

#[test]
fn patience_stops_a_stale_ascent() {
    let b = budget(100, 3, 100);
    let p = drive(&b, &|i| Some(vec![(true, i == 0), (false, true)]));
    assert_eq!(p.stop, Some(LlmStop::Patience));
    assert_eq!(p.accepted, 1);
    assert_eq!(p.rejected_unsafe, 4);
    assert_eq!(p.rejected_worse, 3);
    assert_eq!(p.iters, 4);
}

#[test]
fn target_and_overfit_guards() {
    let b = budget(100, 0, 100);
    let mut p = LlmProgress::start();
    assert!(p.begin_iteration(&b, false));
    assert!(p.record_candidate(true, true));
    assert!(!p.record_candidate(false, true));
    p.end_iteration(&b, true, true);
    assert_eq!(p.stop, Some(LlmStop::OverfitGuard));
    let mut q = LlmProgress::start();
    assert!(q.begin_iteration(&b, false));
    q.end_iteration(&b, false, true);
    assert_eq!(q.stop, Some(LlmStop::Target));
    let mut r = LlmProgress::start();
    assert!(!r.begin_iteration(&b, true));
    assert_eq!(r.stop, Some(LlmStop::BudgetExhausted));
    assert!(r.timed_out);
    assert_eq!(r.iters, 0);
}
