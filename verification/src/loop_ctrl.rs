//! The loop pilot's decisions: when a run of the self-improvement loop stops,
//! and why. The caller performs each step and reports what it observed (the
//! comparisons against thresholds, the clock, the trend over the window); the
//! pilot decides whether to go on, to keep the state as the last sound one,
//! or to stop, possibly rolling back.
use vstd::prelude::*;

verus! {

/// Why a run stopped.
#[derive(Clone, Copy, Debug, PartialEq, Eq, Structural)]
pub enum StopReason {
    /// The step budget is used up.
    MaxSteps,
    /// The target level was reached.
    TargetReached,
    /// The level stopped moving over the window.
    Plateau,
    /// The level falls steeply over the window.
    Diverged,
    /// The time budget is used up.
    Timeout,
    /// The criticality circuit breaker tripped.
    CircuitBreaker,
}

/// The trend of the level over a filled window.
#[derive(Clone, Copy, Debug, PartialEq, Eq, Structural)]
pub enum Trend {
    /// The slope is below the plateau threshold in magnitude.
    Plateau,
    /// The slope is strongly negative.
    Diverging,
    /// Any other slope.
    Other,
}

/// The settings of a run that are not thresholds.
#[derive(Clone, Copy, Debug)]
pub struct LoopPolicy {
    /// Budget of steps.
    pub max_steps: usize,
    /// Stop when the level diverges.
    pub stop_on_divergence: bool,
    /// The circuit breaker has a threshold.
    pub breaker_armed: bool,
    /// When the breaker trips, go back to the last sound state first.
    pub rollback_on_breach: bool,
}

/// What the caller observed after one step.
#[derive(Clone, Copy, Debug)]
pub struct StepSignals {
    /// The step's highest risk priority exceeds the breaker threshold.
    pub breach: bool,
    /// The step's highest risk priority is below half the breaker threshold.
    pub healthy: bool,
    /// A target is set and the level reached it.
    pub target_reached: bool,
    /// A time budget is set and it is used up.
    pub timed_out: bool,
    /// The trend over the window, once the window is filled.
    pub trend: Option<Trend>,
}

/// The pilot's answer after a step.
#[derive(Clone, Copy, Debug, PartialEq, Eq, Structural)]
pub enum StepVerdict {
    /// Go on; when `checkpoint` holds, the current state becomes the last
    /// sound one.
    Continue { checkpoint: bool },
    /// Stop for `reason`; when `rollback` holds, go back to the last sound
    /// state first.
    Stop { reason: StopReason, rollback: bool },
}

/// The verdict after a step, checking in this order: the circuit breaker
/// (when armed), the target, the time budget, then the trend (a plateau
/// stops, a divergence stops when the policy says so).
pub open spec fn verdict(p: LoopPolicy, s: StepSignals) -> StepVerdict {
    if p.breaker_armed && s.breach {
        StepVerdict::Stop { reason: StopReason::CircuitBreaker, rollback: p.rollback_on_breach }
    } else if s.target_reached {
        StepVerdict::Stop { reason: StopReason::TargetReached, rollback: false }
    } else if s.timed_out {
        StepVerdict::Stop { reason: StopReason::Timeout, rollback: false }
    } else if s.trend == Some(Trend::Plateau) {
        StepVerdict::Stop { reason: StopReason::Plateau, rollback: false }
    } else if s.trend == Some(Trend::Diverging) && p.stop_on_divergence {
        StepVerdict::Stop { reason: StopReason::Diverged, rollback: false }
    } else {
        StepVerdict::Continue { checkpoint: p.breaker_armed && s.healthy }
    }
}

/// Decides what follows a step (see [`verdict`]).
pub fn decide(p: &LoopPolicy, s: &StepSignals) -> (v: StepVerdict)
    ensures
        v == verdict(*p, *s),
{
    if p.breaker_armed && s.breach {
        return StepVerdict::Stop { reason: StopReason::CircuitBreaker, rollback: p.rollback_on_breach };
    }
    if s.target_reached {
        return StepVerdict::Stop { reason: StopReason::TargetReached, rollback: false };
    }
    if s.timed_out {
        return StepVerdict::Stop { reason: StopReason::Timeout, rollback: false };
    }
    match s.trend {
        Some(Trend::Plateau) => StepVerdict::Stop { reason: StopReason::Plateau, rollback: false },
        Some(Trend::Diverging) => {
            if p.stop_on_divergence {
                StepVerdict::Stop { reason: StopReason::Diverged, rollback: false }
            } else {
                StepVerdict::Continue { checkpoint: p.breaker_armed && s.healthy }
            }
        },
        _ => StepVerdict::Continue { checkpoint: p.breaker_armed && s.healthy },
    }
}

/// A run in progress: the steps taken, what was observed after each of them
/// (ghost), and, once decided, why it stopped.
#[derive(Clone, Copy)]
pub struct LoopRun {
    pub steps: usize,
    pub stopped: Option<StopReason>,
    pub seen: Ghost<Seq<StepSignals>>,
}

/// The reason a verdict stops for, if it does.
pub open spec fn stop_of(v: StepVerdict) -> Option<StopReason> {
    match v {
        StepVerdict::Stop { reason, .. } => Some(reason),
        StepVerdict::Continue { .. } => None,
    }
}

impl LoopRun {
    /// What every run keeps: the steps stay within the budget, one
    /// observation per step; every step but the last went on, and the run
    /// has stopped exactly when the last step's verdict is a stop, for its
    /// reason (never the budget's: that one is read off the step count).
    pub open spec fn inv(self, p: LoopPolicy) -> bool {
        &&& self.steps <= p.max_steps
        &&& self.stopped != Some(StopReason::MaxSteps)
        &&& self.seen@.len() == self.steps
        &&& forall|i: int| 0 <= i < self.steps - 1 ==> #[trigger] verdict(p, self.seen@[i]) is Continue
        &&& self.stopped == (if self.steps == 0 {
            None
        } else {
            stop_of(verdict(p, self.seen@[self.steps - 1]))
        })
    }

    /// The run has ended: it stopped, or the budget is used up.
    pub open spec fn finished(self, p: LoopPolicy) -> bool {
        self.stopped is Some || self.steps >= p.max_steps
    }

    /// No step taken yet.
    pub fn start() -> (r: LoopRun)
        ensures
            r.steps == 0,
            r.stopped is None,
            r.seen@ == Seq::<StepSignals>::empty(),
            forall|p: LoopPolicy| r.inv(p),
    {
        LoopRun { steps: 0, stopped: None, seen: Ghost(Seq::empty()) }
    }

    /// Whether another step may be taken.
    pub fn may_step(&self, p: &LoopPolicy) -> (r: bool)
        ensures
            r == !self.finished(*p),
    {
        self.stopped.is_none() && self.steps < p.max_steps
    }

    /// Records a step and what was observed after it; returns the verdict,
    /// which ends the run when it is a stop.
    pub fn record(&mut self, p: &LoopPolicy, s: &StepSignals) -> (v: StepVerdict)
        requires
            old(self).inv(*p),
            !old(self).finished(*p),
        ensures
            final(self).inv(*p),
            v == verdict(*p, *s),
            final(self).steps == old(self).steps + 1,
            final(self).stopped == stop_of(v),
            final(self).seen@ == old(self).seen@.push(*s),
    {
        self.seen = Ghost(self.seen@.push(*s));
        self.steps = self.steps + 1;
        let v = decide(p, s);
        if let StepVerdict::Stop { reason, .. } = v {
            self.stopped = Some(reason);
        }
        v
    }

    /// Why the finished run stopped: the recorded reason, else the budget.
    pub fn reason(&self, p: &LoopPolicy) -> (r: StopReason)
        requires
            self.inv(*p),
            self.finished(*p),
        ensures
            r == (match self.stopped {
                Some(x) => x,
                None => StopReason::MaxSteps,
            }),
            r == StopReason::MaxSteps ==> self.steps == p.max_steps,
    {
        match self.stopped {
            Some(x) => x,
            None => StopReason::MaxSteps,
        }
    }
}

/// Every stop has its cause: the breaker stops only when armed and breached,
/// rolls back only when the policy asks for it; the target, the clock and the
/// trend stop only on their own signal; a divergence stops only when the
/// policy says so; a checkpoint is kept only by an armed breaker on a healthy
/// step.
pub proof fn law_stop_has_cause(p: LoopPolicy, s: StepSignals)
    ensures
        verdict(p, s) matches StepVerdict::Stop { reason, rollback } ==> {
            &&& (reason == StopReason::CircuitBreaker <==> p.breaker_armed && s.breach)
            &&& (rollback ==> reason == StopReason::CircuitBreaker && p.rollback_on_breach)
            &&& (reason == StopReason::TargetReached ==> s.target_reached)
            &&& (reason == StopReason::Timeout ==> s.timed_out)
            &&& (reason == StopReason::Plateau ==> s.trend == Some(Trend::Plateau))
            &&& (reason == StopReason::Diverged ==> s.trend == Some(Trend::Diverging) && p.stop_on_divergence)
            &&& reason != StopReason::MaxSteps
        },
        verdict(p, s) matches StepVerdict::Continue { checkpoint } ==> {
            &&& (checkpoint <==> p.breaker_armed && s.healthy)
            &&& !(p.breaker_armed && s.breach)
            &&& !s.target_reached
            &&& !s.timed_out
            &&& s.trend != Some(Trend::Plateau)
        },
{
}

/// A run ends by the budget exactly when no step asked to stop: then it took
/// `max_steps` steps; a run that stopped early took at most that many.
pub proof fn law_budget(r: LoopRun, p: LoopPolicy)
    requires
        r.inv(p),
        r.finished(p),
    ensures
        r.stopped is None ==> r.steps == p.max_steps,
        r.steps <= p.max_steps,
        r.stopped != Some(StopReason::MaxSteps),
{
}

/// Over a whole finished run: it took at most `max_steps` steps, each after
/// an observation; every step but the last went on; the budget ended it
/// exactly when no step asked to stop, after `max_steps` steps; any other
/// stop came from the last observation: the breaker only when armed and
/// breached (with a rollback only when the policy asks for one), the target,
/// the clock and the trend only on their own signal.
pub proof fn law_run(r: LoopRun, p: LoopPolicy)
    requires
        r.inv(p),
        r.finished(p),
    ensures
        r.steps <= p.max_steps,
        r.seen@.len() == r.steps,
        forall|i: int| 0 <= i < r.steps - 1 ==> #[trigger] verdict(p, r.seen@[i]) is Continue,
        r.stopped is None <==> (r.steps == p.max_steps && forall|i: int|
            0 <= i < r.steps ==> #[trigger] verdict(p, r.seen@[i]) is Continue),
        r.stopped is Some ==> r.steps >= 1 && ({
            let last = r.seen@[r.steps - 1];
            &&& (r.stopped == Some(StopReason::CircuitBreaker) ==> p.breaker_armed && last.breach)
            &&& (r.stopped == Some(StopReason::TargetReached) ==> last.target_reached)
            &&& (r.stopped == Some(StopReason::Timeout) ==> last.timed_out)
            &&& (r.stopped == Some(StopReason::Plateau) ==> last.trend == Some(Trend::Plateau))
            &&& (r.stopped == Some(StopReason::Diverged) ==> last.trend == Some(Trend::Diverging)
                && p.stop_on_divergence)
            &&& (verdict(p, last) matches StepVerdict::Stop { rollback, .. } && rollback ==> r.stopped
                == Some(StopReason::CircuitBreaker) && p.rollback_on_breach)
        }),
{
    if r.stopped is Some {
        law_stop_has_cause(p, r.seen@[r.steps - 1]);
    }
    if r.stopped is None && r.steps > 0 {
        assert(verdict(p, r.seen@[r.steps - 1]) is Continue);
    }
}

} // verus!
