//! Probe planning and the attempt/sleep schedule of a run.

use vstd::prelude::*;

use crate::resolve::IpFamilyPreference;

verus! {

/// Why the configuration handed to the probe was rejected.
#[derive(Clone, Copy, Debug, PartialEq, Eq, Structural)]
pub enum ConfigError {
    /// A finite attempt count must be at least one.
    NonPositiveCount,
    /// The IPv4-only and IPv6-only flags exclude one another.
    ConflictingFamilies,
}

/// How often the probe repeats: a fixed number of attempts, or without end.
#[derive(Clone, Copy, Debug, PartialEq, Eq, Structural)]
pub enum RepeatPolicy {
    Finite(u32),
    Forever,
}

/// A validated probe plan: the repetition policy, the pause between attempts
/// and the per-attempt connect deadline, both in milliseconds.
#[derive(Clone, Copy, Debug, PartialEq, Eq, Structural)]
pub struct ProbePlan {
    pub repeat: RepeatPolicy,
    pub interval_ms: u64,
    pub timeout_ms: u64,
}

impl ProbePlan {
    /// A finite plan asks for at least one attempt.
    pub open spec fn wf(self) -> bool {
        match self.repeat {
            RepeatPolicy::Finite(n) => n >= 1,
            RepeatPolicy::Forever => true,
        }
    }
}

/// Derive the single IP-family preference of a run from the two mutually
/// exclusive flags; both set at once is a configuration error.
pub fn family_preference(ipv4: bool, ipv6: bool) -> (r: Result<IpFamilyPreference, ConfigError>)
    ensures
        r == if ipv4 && ipv6 {
            Err::<IpFamilyPreference, ConfigError>(ConfigError::ConflictingFamilies)
        } else if ipv4 {
            Ok::<IpFamilyPreference, ConfigError>(IpFamilyPreference::IPv4Only)
        } else if ipv6 {
            Ok::<IpFamilyPreference, ConfigError>(IpFamilyPreference::IPv6Only)
        } else {
            Ok::<IpFamilyPreference, ConfigError>(IpFamilyPreference::Any)
        },
{
    match (ipv4, ipv6) {
        (true, true) => Err(ConfigError::ConflictingFamilies),
        (true, false) => Ok(IpFamilyPreference::IPv4Only),
        (false, true) => Ok(IpFamilyPreference::IPv6Only),
        (false, false) => Ok(IpFamilyPreference::Any),
    }
}

/// Validate the repetition options and build the plan. A count of zero is
/// rejected before any probing can occur; otherwise the plan repeats forever
/// when asked to, and `count` times when not.
pub fn make_plan(count: u32, forever: bool, interval_ms: u64, timeout_ms: u64) -> (r: Result<
    ProbePlan,
    ConfigError,
>)
    ensures
        r == if count == 0 {
            Err::<ProbePlan, ConfigError>(ConfigError::NonPositiveCount)
        } else {
            Ok::<ProbePlan, ConfigError>(
                ProbePlan {
                    repeat: if forever {
                        RepeatPolicy::Forever
                    } else {
                        RepeatPolicy::Finite(count)
                    },
                    interval_ms,
                    timeout_ms,
                },
            )
        },
        r matches Ok(p) ==> p.wf(),
{
    if count == 0 {
        Err(ConfigError::NonPositiveCount)
    } else if forever {
        Ok(ProbePlan { repeat: RepeatPolicy::Forever, interval_ms, timeout_ms })
    } else {
        Ok(ProbePlan { repeat: RepeatPolicy::Finite(count), interval_ms, timeout_ms })
    }
}

/// The outcome of one connection attempt, with the elapsed whole
/// milliseconds the attempt took; measured for every outcome alike.
#[derive(Clone, Copy, Debug, PartialEq, Eq, Structural)]
pub enum ProbeOutcome {
    Connected(u64),
    TimedOut(u64),
    Failed(u64),
}

/// The outcome owed to a finished attempt: success connects; a failure is a
/// timeout exactly when its reason was the deadline, and any other failure
/// reason is a plain failure.
pub open spec fn classified(connected: bool, timed_out: bool, elapsed_ms: u64) -> ProbeOutcome {
    if connected {
        ProbeOutcome::Connected(elapsed_ms)
    } else if timed_out {
        ProbeOutcome::TimedOut(elapsed_ms)
    } else {
        ProbeOutcome::Failed(elapsed_ms)
    }
}

/// Classify one finished connection attempt. `connected` says the attempt
/// succeeded; `timed_out` says its failure reason was specifically the
/// connect deadline.
pub fn classify_outcome(connected: bool, timed_out: bool, elapsed_ms: u64) -> (r: ProbeOutcome)
    ensures
        r == classified(connected, timed_out, elapsed_ms),
{
    if connected {
        ProbeOutcome::Connected(elapsed_ms)
    } else if timed_out {
        ProbeOutcome::TimedOut(elapsed_ms)
    } else {
        ProbeOutcome::Failed(elapsed_ms)
    }
}

/// The schedule of one run: attempts alternate with sleeps, starting and —
/// for a finite plan — ending on an attempt, so a finished finite run has
/// slept exactly once between consecutive attempts and never after the last.
pub struct ProbeRunner {
    pub plan: ProbePlan,
    pub attempts: u64,
    pub sleeps: u64,
}

impl ProbeRunner {
    /// A finite run is done when it has made all its attempts; an unbounded
    /// run never is.
    pub open spec fn done_spec(self) -> bool {
        match self.plan.repeat {
            RepeatPolicy::Finite(n) => self.attempts >= n,
            RepeatPolicy::Forever => false,
        }
    }

    /// The runner's invariant: the plan is valid, a finite run never
    /// overshoots its count, each attempt but possibly the latest has been
    /// followed by exactly one sleep, and a finished run was not slept
    /// after.
    pub open spec fn wf(self) -> bool {
        &&& self.plan.wf()
        &&& match self.plan.repeat {
            RepeatPolicy::Finite(n) => self.attempts <= n,
            RepeatPolicy::Forever => true,
        }
        &&& (self.sleeps == self.attempts || self.sleeps + 1 == self.attempts)
        &&& (self.done_spec() ==> self.sleeps + 1 == self.attempts)
    }

    /// Start a run: nothing attempted, nothing slept.
    pub fn new(plan: ProbePlan) -> (r: ProbeRunner)
        requires
            plan.wf(),
        ensures
            r.plan == plan,
            r.attempts == 0,
            r.sleeps == 0,
            r.wf(),
            !r.done_spec(),
    {
        ProbeRunner { plan, attempts: 0, sleeps: 0 }
    }

    /// Has the run made all the attempts its plan asks for?
    pub fn is_done(&self) -> (r: bool)
        ensures
            r == self.done_spec(),
    {
        match self.plan.repeat {
            RepeatPolicy::Finite(n) => self.attempts >= n as u64,
            RepeatPolicy::Forever => false,
        }
    }

    /// Record one finished connection attempt (and its one printed line).
    /// Only a pending run attempts, and only at the head of an iteration,
    /// when every earlier attempt has been slept after.
    pub fn record_attempt(&mut self)
        requires
            old(self).wf(),
            !old(self).done_spec(),
            old(self).sleeps == old(self).attempts,
            old(self).attempts < u64::MAX,
        ensures
            final(self).plan == old(self).plan,
            final(self).attempts == old(self).attempts + 1,
            final(self).sleeps == old(self).sleeps,
            final(self).wf(),
    {
        self.attempts = self.attempts + 1;
    }

    /// Record the pause after a non-final attempt. A run that is done never
    /// sleeps again, so the last attempt of a finite plan is never followed
    /// by one.
    pub fn record_sleep(&mut self)
        requires
            old(self).wf(),
            !old(self).done_spec(),
            old(self).sleeps + 1 == old(self).attempts,
        ensures
            final(self).plan == old(self).plan,
            final(self).attempts == old(self).attempts,
            final(self).sleeps == old(self).sleeps + 1,
            final(self).wf(),
    {
        self.sleeps = self.sleeps + 1;
    }
}

/// Schedule law: a finished finite run of `n` attempts has produced exactly
/// `n` outcome lines and slept exactly `n - 1` times, never after the last
/// attempt.
pub proof fn lemma_finite_run_counts(r: ProbeRunner, n: u32)
    requires
        r.wf(),
        r.plan.repeat == RepeatPolicy::Finite(n),
        r.done_spec(),
    ensures
        r.attempts == n,
        r.sleeps == n - 1,
{
}

} // verus!

