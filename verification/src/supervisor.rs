//! Supervision policy for actors: restart strategies and the restart-rate
//! limit.
use vstd::prelude::*;
use crate::text::{concat2, concat3, decimal, owned, u64_to_decimal};

verus! {

/// How a supervisor reacts when a child actor fails.
#[derive(Debug, Clone, Copy, PartialEq, Eq, Structural)]
pub enum SupervisorStrategy {
    /// Restart only the failed child, at most `max_restarts` times within
    /// `within_secs`.
    OneForOne { max_restarts: u32, within_secs: u64 },
    /// Restart every child when one fails, with the same limit.
    AllForOne { max_restarts: u32, within_secs: u64 },
    /// Restart up to `max` times within `within_secs` (factory-spawned actors).
    RestartN { max: usize, within_secs: u64 },
    /// Pass the failure on to the parent.
    Escalate,
}

impl Default for SupervisorStrategy {
    /// One-for-one, at most 3 restarts within 60 seconds.
    fn default() -> (r: Self)
        ensures
            r == (SupervisorStrategy::OneForOne { max_restarts: 3, within_secs: 60 }),
    {
        SupervisorStrategy::OneForOne { max_restarts: 3, within_secs: 60 }
    }
}

/// A restart at time `t` (milliseconds) still counts at time `now`: less
/// than `within_secs` seconds have passed (a time after `now` counts as no
/// time passed).
pub open spec fn in_window(t: u64, now: u64, within_secs: u64) -> bool {
    (if now >= t { (now - t) as int } else { 0int }) < within_secs * 1000
}

/// The restart times that are still inside the window, in order.
pub open spec fn recent_restarts(times: Seq<u64>, now: u64, within_secs: u64) -> Seq<u64>
    decreases times.len(),
{
    if times.len() == 0 {
        Seq::empty()
    } else if in_window(times.last(), now, within_secs) {
        recent_restarts(times.drop_last(), now, within_secs).push(times.last())
    } else {
        recent_restarts(times.drop_last(), now, within_secs)
    }
}

/// Decide whether a restart at `now` (milliseconds on a monotonic clock) is
/// allowed: the recorded restart times older than the window are dropped;
/// when fewer than `max_restarts` remain, `now` is recorded and the restart
/// is allowed, otherwise it is refused and nothing is recorded.
pub fn check_restart_limit(restart_times: &mut Vec<u64>, now: u64, max_restarts: u32, within_secs: u64) -> (allowed: bool)
    ensures
        ({
            let kept = recent_restarts(old(restart_times)@, now, within_secs);
            &&& allowed == (kept.len() < max_restarts)
            &&& final(restart_times)@ == if allowed { kept.push(now) } else { kept }
        }),
{
    let ghost orig = restart_times@;
    let mut kept: Vec<u64> = Vec::new();
    let mut i: usize = 0;
    while i < restart_times.len()
        invariant
            i <= restart_times@.len(),
            restart_times@ == orig,
            kept@ == recent_restarts(orig.subrange(0, i as int), now, within_secs),
        decreases restart_times@.len() - i,
    {
        let t = restart_times[i];
        let elapsed: u64 = if now >= t { now - t } else { 0 };
        proof {
            assert(orig.subrange(0, i + 1).drop_last() =~= orig.subrange(0, i as int));
            assert(orig.subrange(0, i + 1).last() == t);
        }
        if elapsed / 1000 < within_secs {
            proof {
                assert(elapsed < within_secs * 1000) by (nonlinear_arith)
                    requires elapsed / 1000 < within_secs;
            }
            kept.push(t);
        } else {
            proof {
                assert(elapsed >= within_secs * 1000) by (nonlinear_arith)
                    requires elapsed / 1000 >= within_secs;
            }
        }
        i = i + 1;
    }
    proof {
        assert(orig.subrange(0, i as int) =~= orig);
    }
    let allowed = kept.len() < max_restarts as usize;
    if allowed {
        kept.push(now);
    }
    *restart_times = kept;
    allowed
}

/// How a supervised actor's task ended.
#[derive(Debug, Clone, Copy, PartialEq, Eq, Structural)]
pub enum ActorExit {
    /// The actor's loop returned.
    Finished,
    /// The actor panicked.
    Panicked,
    /// The task was aborted (shutdown).
    Aborted,
}

/// What the supervisor does about a child whose task ended.
#[derive(Debug, Clone, Copy, PartialEq, Eq, Structural)]
pub enum SupervisorDecision {
    /// Forget the child.
    Remove,
    /// Rebuild the child from its factory and keep supervising it.
    Restart,
    /// The child is not restarted (over its restart limit, no longer listed,
    /// or without a factory): forget it.
    GiveUp,
    /// Stop the child's siblings, then forget it.
    StopSiblings,
    /// Escalate to the parent, then forget the child.
    Escalate,
}

/// The restart limit of a restarting strategy (`RestartN`'s limit is taken
/// as a `u32`, keeping its low 32 bits).
pub open spec fn restart_limit(s: SupervisorStrategy) -> Option<(u32, u64)> {
    match s {
        SupervisorStrategy::OneForOne { max_restarts, within_secs } => Some((max_restarts, within_secs)),
        SupervisorStrategy::RestartN { max, within_secs } => Some((max as u32, within_secs)),
        _ => None,
    }
}

/// Decide what to do about a child whose task ended at `now`.
///
/// A finished or aborted child is forgotten. A panicked child: under
/// `AllForOne` its siblings are stopped, under `Escalate` the failure goes
/// to the parent; under `OneForOne` and `RestartN` the restart limit is
/// checked against the child's record `restart_times` (when the parent
/// still lists the child, `listed`), and the child restarts when the limit
/// allows it and it has a factory.
pub fn supervise_exit(
    strategy: SupervisorStrategy,
    exit: ActorExit,
    restart_times: &mut Vec<u64>,
    listed: bool,
    has_factory: bool,
    now: u64,
) -> (d: SupervisorDecision)
    ensures
        match exit {
            ActorExit::Panicked => match restart_limit(strategy) {
                Some((max, within)) => if listed {
                    let kept = recent_restarts(old(restart_times)@, now, within);
                    let allowed = kept.len() < max;
                    &&& final(restart_times)@ == if allowed { kept.push(now) } else { kept }
                    &&& d == if allowed && has_factory {
                        SupervisorDecision::Restart
                    } else {
                        SupervisorDecision::GiveUp
                    }
                } else {
                    d == SupervisorDecision::GiveUp && final(restart_times)@ == old(restart_times)@
                },
                None => {
                    &&& final(restart_times)@ == old(restart_times)@
                    &&& d == if strategy is Escalate {
                        SupervisorDecision::Escalate
                    } else {
                        SupervisorDecision::StopSiblings
                    }
                },
            },
            _ => d == SupervisorDecision::Remove && final(restart_times)@ == old(restart_times)@,
        },
{
    match exit {
        ActorExit::Panicked => {},
        _ => {
            return SupervisorDecision::Remove;
        },
    }
    let (max, within) = match strategy {
        SupervisorStrategy::OneForOne { max_restarts, within_secs } => (max_restarts, within_secs),
        SupervisorStrategy::RestartN { max, within_secs } => (max as u32, within_secs),
        SupervisorStrategy::AllForOne { .. } => {
            return SupervisorDecision::StopSiblings;
        },
        SupervisorStrategy::Escalate => {
            return SupervisorDecision::Escalate;
        },
    };
    if !listed {
        return SupervisorDecision::GiveUp;
    }
    let allowed = check_restart_limit(restart_times, now, max, within);
    if allowed && has_factory {
        SupervisorDecision::Restart
    } else {
        SupervisorDecision::GiveUp
    }
}

/// Errors of the actor runtime.
#[derive(Debug, Clone)]
pub enum ActorError {
    /// The actor's channel is disconnected.
    Disconnected,
    /// An ask got no reply in time.
    AskTimeout { millis: u64 },
    /// The actor panicked, with the panic message.
    Panicked(String),
    /// The restart limit was exceeded.
    RestartLimitExceeded { count: u32 },
    /// The actor has already stopped.
    AlreadyStopped,
    /// A bounded mailbox is full.
    MailboxFull,
    /// Any other failure.
    Internal(String),
}

/// The message of an actor error.
pub open spec fn actor_error_message(e: ActorError) -> Seq<char> {
    match e {
        ActorError::Disconnected => "actor channel disconnected"@,
        ActorError::AskTimeout { millis } => "ask timed out after "@ + decimal(millis as nat) + "ms"@,
        ActorError::Panicked(m) => "actor panicked: "@ + m@,
        ActorError::RestartLimitExceeded { count } => "restart limit exceeded after "@ + decimal(count as nat)
            + " restarts"@,
        ActorError::AlreadyStopped => "actor already stopped"@,
        ActorError::MailboxFull => "mailbox full"@,
        ActorError::Internal(m) => "internal error: "@ + m@,
    }
}

impl ActorError {
    /// The error's message.
    pub fn message(&self) -> (r: String)
        ensures
            r@ == actor_error_message(*self),
    {
        match self {
            ActorError::Disconnected => owned("actor channel disconnected"),
            ActorError::AskTimeout { millis } => concat3("ask timed out after ", u64_to_decimal(*millis).as_str(), "ms"),
            ActorError::Panicked(m) => concat2("actor panicked: ", m.as_str()),
            ActorError::RestartLimitExceeded { count } => concat3(
                "restart limit exceeded after ",
                u64_to_decimal(*count as u64).as_str(),
                " restarts",
            ),
            ActorError::AlreadyStopped => owned("actor already stopped"),
            ActorError::MailboxFull => owned("mailbox full"),
            ActorError::Internal(m) => concat2("internal error: ", m.as_str()),
        }
    }
}

} // verus!
