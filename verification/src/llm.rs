//! Language-model proposals: the client interface, a scripted client, and the
//! bookkeeping of the bounded elitist ascent that such proposals drive.
use vstd::prelude::*;

verus! {

/// Failure of a proposal backend.
#[derive(Clone, Debug, PartialEq, Eq)]
pub enum LlmError {
    /// The backend failed (network, model unavailable, ...).
    Backend(String),
    /// The backend returned no proposal.
    Empty,
}

/// A producer of proposals: `k` raw texts for a prompt.
pub trait LlmClient {
    fn propose(&self, prompt: &str, k: usize) -> Result<Vec<String>, LlmError>;
}

/// A candidate broke a safety constraint of its domain.
#[derive(Clone, Debug, PartialEq, Eq)]
pub struct SafetyViolation(pub String);

/// What the outcome of one proposal call is: no proposal is an error.
pub open spec fn proposal_outcome(out: Seq<String>) -> Result<Seq<String>, LlmError> {
    if out.len() == 0 { Err(LlmError::Empty) } else { Ok(out) }
}

/// A deterministic client that answers with what a closure computes from the
/// prompt and `k`; an empty answer counts as a failed call.
pub struct MockLlmClient<F: Fn(&str, usize) -> Vec<String>> {
    proposer: F,
}

impl<F: Fn(&str, usize) -> Vec<String>> MockLlmClient<F> {
    /// The closure must accept every prompt and count.
    #[verifier::type_invariant]
    spec fn accepts_all(self) -> bool {
        forall|p: &str, k: usize| #[trigger] self.proposer.requires((p, k))
    }

    pub fn new(proposer: F) -> (c: MockLlmClient<F>)
        requires
            forall|p: &str, k: usize| #[trigger] proposer.requires((p, k)),
        ensures
            c.proposer() == proposer,
    {
        MockLlmClient { proposer }
    }

    /// The closure the client answers with.
    pub closed spec fn proposer(self) -> F {
        self.proposer
    }
}

impl<F: Fn(&str, usize) -> Vec<String>> LlmClient for MockLlmClient<F> {
    fn propose(&self, prompt: &str, k: usize) -> (r: Result<Vec<String>, LlmError>)
        ensures
            match r {
                Ok(v) => v@.len() > 0 && call_ensures(self.proposer(), (prompt, k), v),
                Err(e) => e == LlmError::Empty && exists|out: Vec<String>|
                    out@.len() == 0 && call_ensures(self.proposer(), (prompt, k), out),
            },
    {
        proof {
            use_type_invariant(self);
        }
        let out = (self.proposer)(prompt, k);
        if out.len() == 0 {
            Err(LlmError::Empty)
        } else {
            Ok(out)
        }
    }
}

/// Why an LLM-driven ascent stopped.
#[derive(Clone, Copy, Debug, PartialEq, Eq, Structural)]
pub enum LlmStop {
    MaxIters,
    Patience,
    Target,
    /// The call budget (or the time budget) is spent.
    BudgetExhausted,
    /// The gap between training and held-out fitness grew too large.
    OverfitGuard,
}

/// The counting bounds of an LLM-driven ascent.
#[derive(Clone, Copy, Debug)]
pub struct LlmBudget {
    /// Hard bound on iterations.
    pub max_iters: usize,
    /// Stop after this many iterations without improvement (0: never).
    pub patience: usize,
    /// Proposals asked per call.
    pub k: usize,
    /// Bound on calls to the proposal backend.
    pub max_llm_calls: usize,
}

/// Progress of an LLM-driven ascent: its counters and, once decided, why it
/// stopped. The loop that calls the backend and scores candidates reports to
/// it; it decides when the loop stops.
#[derive(Clone, Copy, Debug)]
pub struct LlmProgress {
    /// Iterations counted in the report.
    pub iters: usize,
    /// Calls made to the backend.
    pub llm_calls: usize,
    /// Candidates adopted (strictly better and safe).
    pub accepted: usize,
    /// Safe candidates not strictly better.
    pub rejected_worse: usize,
    /// Candidates refused by the safety check.
    pub rejected_unsafe: usize,
    /// Iterations since the last adoption.
    pub stale: usize,
    /// Why the ascent stopped, once it has.
    pub stop: Option<LlmStop>,
    /// Index of the next iteration.
    pub next_iter: usize,
    /// Whether a candidate was adopted in the current iteration.
    pub improved: bool,
    /// Whether the time budget stopped the ascent.
    pub timed_out: bool,
}

impl LlmProgress {
    /// What every state keeps: no more calls than the budget, no more
    /// iterations than the bound, exactly one call per counted iteration;
    /// a stop on the iteration bound comes with all iterations counted, a
    /// stop on patience with that many iterations without adoption, a stop
    /// on the budget with the calls spent or the time up.
    pub open spec fn inv(self, b: LlmBudget) -> bool {
        &&& self.llm_calls <= b.max_llm_calls
        &&& self.next_iter <= b.max_iters
        &&& self.iters <= b.max_iters
        &&& self.llm_calls == self.iters
        &&& (self.iters == self.next_iter || self.iters == self.next_iter + 1)
        &&& self.stale <= self.next_iter
        &&& (self.stop is Some ==> self.iters == self.next_iter)
        &&& (self.stop == Some(LlmStop::MaxIters) ==> self.iters == b.max_iters)
        &&& (self.stop == Some(LlmStop::Patience) ==> b.patience > 0 && self.stale >= b.patience)
        &&& (self.stop == Some(LlmStop::BudgetExhausted) ==> self.llm_calls >= b.max_llm_calls
            || self.timed_out)
    }

    /// Nothing counted yet.
    pub fn start() -> (p: LlmProgress)
        ensures
            p.iters == 0 && p.llm_calls == 0 && p.accepted == 0 && p.rejected_worse == 0
                && p.rejected_unsafe == 0 && p.stale == 0 && p.stop is None && p.next_iter == 0
                && !p.improved && !p.timed_out,
            forall|b: LlmBudget| p.inv(b),
    {
        LlmProgress {
            iters: 0,
            llm_calls: 0,
            accepted: 0,
            rejected_worse: 0,
            rejected_unsafe: 0,
            stale: 0,
            stop: None,
            next_iter: 0,
            improved: false,
            timed_out: false,
        }
    }

    /// Opens the next iteration, before any call. Returns whether the backend
    /// may be called: `false` once the iterations are used up (stop
    /// `MaxIters`) or when the call budget is spent or `out_of_time` holds
    /// (stop `BudgetExhausted`; that iteration is not counted). When it
    /// returns `true`, the call is counted.
    pub fn begin_iteration(&mut self, b: &LlmBudget, out_of_time: bool) -> (go: bool)
        requires
            old(self).inv(*b),
            old(self).stop is None,
            old(self).iters == old(self).next_iter,
        ensures
            final(self).inv(*b),
            go <==> (old(self).next_iter < b.max_iters && old(self).llm_calls < b.max_llm_calls
                && !out_of_time),
            !go ==> final(self).stop == Some(
                if old(self).next_iter >= b.max_iters { LlmStop::MaxIters } else { LlmStop::BudgetExhausted },
            ),
            go ==> final(self).stop is None && final(self).llm_calls == old(self).llm_calls + 1
                && final(self).iters == old(self).next_iter + 1,
            !go && old(self).next_iter < b.max_iters ==> final(self).iters == old(self).next_iter,
            !go && old(self).next_iter >= b.max_iters ==> final(self).iters == old(self).iters,
            final(self).next_iter == old(self).next_iter,
            final(self).accepted == old(self).accepted,
            final(self).rejected_worse == old(self).rejected_worse,
            final(self).rejected_unsafe == old(self).rejected_unsafe,
            final(self).stale == old(self).stale,
            !final(self).improved,
            final(self).timed_out == (if !go && old(self).next_iter < b.max_iters {
                out_of_time
            } else {
                old(self).timed_out
            }),
    {
        self.improved = false;
        if self.next_iter >= b.max_iters {
            self.stop = Some(LlmStop::MaxIters);
            return false;
        }
        self.iters = self.next_iter + 1;
        if self.llm_calls >= b.max_llm_calls || out_of_time {
            self.stop = Some(LlmStop::BudgetExhausted);
            self.timed_out = out_of_time;
            self.iters = self.next_iter;
            return false;
        }
        self.llm_calls = self.llm_calls + 1;
        true
    }

    /// The call of this iteration failed: the incumbent stays, the iteration
    /// counts as one without improvement; patience may stop the ascent.
    pub fn record_failed_call(&mut self, b: &LlmBudget)
        requires
            old(self).inv(*b),
            old(self).stop is None,
            old(self).iters == old(self).next_iter + 1,
        ensures
            final(self).inv(*b),
            final(self).stale == old(self).stale + 1,
            final(self).next_iter == old(self).next_iter + 1,
            final(self).stop == (if b.patience > 0 && final(self).stale >= b.patience {
                Some(LlmStop::Patience)
            } else {
                None
            }),
            final(self).iters == old(self).iters,
            final(self).llm_calls == old(self).llm_calls,
            final(self).accepted == old(self).accepted,
            final(self).rejected_worse == old(self).rejected_worse,
            final(self).rejected_unsafe == old(self).rejected_unsafe,
            final(self).timed_out == old(self).timed_out,
    {
        self.stale = self.stale + 1;
        self.next_iter = self.next_iter + 1;
        if b.patience > 0 && self.stale >= b.patience {
            self.stop = Some(LlmStop::Patience);
        }
    }

    /// One candidate of this iteration was judged: refused as unsafe, adopted
    /// when safe and strictly better, else rejected as not better. Returns
    /// whether it is adopted: an unsafe candidate never is.
    pub fn record_candidate(&mut self, safe: bool, better: bool) -> (adopt: bool)
        requires
            old(self).accepted + old(self).rejected_worse + old(self).rejected_unsafe < usize::MAX,
        ensures
            adopt == (safe && better),
            final(self).rejected_unsafe == old(self).rejected_unsafe + (if !safe { 1int } else { 0int }),
            final(self).accepted == old(self).accepted + (if safe && better { 1int } else { 0int }),
            final(self).rejected_worse == old(self).rejected_worse + (if safe && !better { 1int } else { 0int }),
            final(self).improved == (old(self).improved || (safe && better)),
            final(self).iters == old(self).iters,
            final(self).llm_calls == old(self).llm_calls,
            final(self).stale == old(self).stale,
            final(self).stop == old(self).stop,
            final(self).next_iter == old(self).next_iter,
            final(self).timed_out == old(self).timed_out,
    {
        if !safe {
            self.rejected_unsafe = self.rejected_unsafe + 1;
            false
        } else if better {
            self.accepted = self.accepted + 1;
            self.improved = true;
            true
        } else {
            self.rejected_worse = self.rejected_worse + 1;
            false
        }
    }

    /// Closes an iteration whose call succeeded: the stale count restarts
    /// after an adoption; then, in this order, the overfitting guard, the
    /// target and patience may stop the ascent.
    pub fn end_iteration(&mut self, b: &LlmBudget, overfit: bool, target_reached: bool)
        requires
            old(self).inv(*b),
            old(self).stop is None,
            old(self).iters == old(self).next_iter + 1,
        ensures
            final(self).inv(*b),
            final(self).stale == (if old(self).improved { 0 } else { old(self).stale + 1 }),
            final(self).next_iter == old(self).next_iter + 1,
            final(self).stop == (if overfit {
                Some(LlmStop::OverfitGuard)
            } else if target_reached {
                Some(LlmStop::Target)
            } else if b.patience > 0 && final(self).stale >= b.patience {
                Some(LlmStop::Patience)
            } else {
                None
            }),
            final(self).iters == old(self).iters,
            final(self).llm_calls == old(self).llm_calls,
            final(self).accepted == old(self).accepted,
            final(self).rejected_worse == old(self).rejected_worse,
            final(self).rejected_unsafe == old(self).rejected_unsafe,
            !final(self).improved,
            final(self).timed_out == old(self).timed_out,
    {
        if self.improved {
            self.stale = 0;
        } else {
            self.stale = self.stale + 1;
        }
        self.improved = false;
        self.next_iter = self.next_iter + 1;
        if overfit {
            self.stop = Some(LlmStop::OverfitGuard);
        } else if target_reached {
            self.stop = Some(LlmStop::Target);
        } else if b.patience > 0 && self.stale >= b.patience {
            self.stop = Some(LlmStop::Patience);
        }
    }
}

/// However the ascent goes: the backend is called once per counted
/// iteration, at most `max_llm_calls` times, over at most `max_iters`
/// iterations; once it has stopped, the stop has its cause: the iteration
/// bound with every iteration counted, patience with that many iterations in
/// a row without adoption, the budget with every call spent or the time up.
pub proof fn law_llm_run(p: LlmProgress, b: LlmBudget)
    requires
        p.inv(b),
    ensures
        p.llm_calls == p.iters,
        p.llm_calls <= b.max_llm_calls,
        p.iters <= b.max_iters,
        p.stop == Some(LlmStop::MaxIters) ==> p.iters == b.max_iters,
        p.stop == Some(LlmStop::Patience) ==> b.patience > 0 && p.stale >= b.patience,
        p.stop == Some(LlmStop::BudgetExhausted) ==> p.llm_calls == b.max_llm_calls || p.timed_out,
{
}

} // verus!
