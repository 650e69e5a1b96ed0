//! One step of a driver that waits for completions on a file descriptor.
//!
//! The completion channel signals only what arrives after it was armed, so the
//! queue is drained once more between arming and waiting: a completion that came
//! in between is then in the queue, and any later one signals.

use vstd::prelude::*;

verus! {

/// Where a step is.
#[derive(Debug, Clone, Copy, PartialEq, Eq, Structural)]
pub enum ReactorState {
    /// The queue is being drained for the first time.
    Draining,
    /// The connection manager is being asked for a half-close.
    CheckingCm,
    /// The channel is being armed.
    Arming,
    /// The queue is being drained with the channel armed.
    DrainingArmed,
    /// The descriptor is being waited for.
    Waiting,
    /// The signal is being consumed and the channel armed again.
    Rearming,
}

/// What the driver found.
#[derive(Debug, Clone, Copy, PartialEq, Eq, Structural)]
pub enum ReactorEvent {
    /// This many completions were drained.
    Drained {
        /// Number of completions.
        n: usize,
    },
    /// The connection manager's answer.
    Disconnected {
        /// The peer is gone.
        gone: bool,
    },
    /// The channel is armed.
    Armed,
    /// The descriptor is readable.
    Readable,
    /// The descriptor is not readable; the task will be woken.
    NotReady,
}

/// What the driver does next.
#[derive(Debug, Clone, Copy, PartialEq, Eq, Structural)]
pub enum ReactorAction {
    /// Drain the queue.
    Drain,
    /// Ask the connection manager for a half-close.
    CheckCm,
    /// Arm the channel.
    Arm,
    /// Poll the descriptor.
    Wait,
    /// Consume the signal and arm the channel again.
    ConsumeAndArm,
    /// The stream advanced: retry the operation.
    Ready,
    /// The task is parked.
    Pending,
}

/// The state and the action that follow an event. An event that does not belong
/// to the state starts the step again.
pub open spec fn stepped(state: ReactorState, event: ReactorEvent) -> (ReactorState, ReactorAction) {
    match (state, event) {
        (ReactorState::Draining, ReactorEvent::Drained { n }) => if n > 0 {
            (ReactorState::Draining, ReactorAction::Ready)
        } else {
            (ReactorState::CheckingCm, ReactorAction::CheckCm)
        },
        (ReactorState::CheckingCm, ReactorEvent::Disconnected { gone }) => if gone {
            (ReactorState::Draining, ReactorAction::Ready)
        } else {
            (ReactorState::Arming, ReactorAction::Arm)
        },
        (ReactorState::Arming, ReactorEvent::Armed) => (
            ReactorState::DrainingArmed,
            ReactorAction::Drain,
        ),
        (ReactorState::DrainingArmed, ReactorEvent::Drained { n }) => if n > 0 {
            (ReactorState::Draining, ReactorAction::Ready)
        } else {
            (ReactorState::Waiting, ReactorAction::Wait)
        },
        (ReactorState::Waiting, ReactorEvent::NotReady) => (
            ReactorState::Draining,
            ReactorAction::Pending,
        ),
        (ReactorState::Waiting, ReactorEvent::Readable) => (
            ReactorState::Rearming,
            ReactorAction::ConsumeAndArm,
        ),
        (ReactorState::Rearming, ReactorEvent::Armed) => (
            ReactorState::DrainingArmed,
            ReactorAction::Drain,
        ),
        _ => (ReactorState::Draining, ReactorAction::Drain),
    }
}

impl ReactorState {
    /// The start of a step: the queue is to be drained.
    pub fn start() -> (r: (ReactorState, ReactorAction))
        ensures
            r == (ReactorState::Draining, ReactorAction::Drain),
    {
        (ReactorState::Draining, ReactorAction::Drain)
    }

    /// Decides what follows an event.
    pub fn step(self, event: ReactorEvent) -> (r: (ReactorState, ReactorAction))
        ensures
            r == stepped(self, event),
    {
        match (self, event) {
            (ReactorState::Draining, ReactorEvent::Drained { n }) => if n > 0 {
                (ReactorState::Draining, ReactorAction::Ready)
            } else {
                (ReactorState::CheckingCm, ReactorAction::CheckCm)
            },
            (ReactorState::CheckingCm, ReactorEvent::Disconnected { gone }) => if gone {
                (ReactorState::Draining, ReactorAction::Ready)
            } else {
                (ReactorState::Arming, ReactorAction::Arm)
            },
            (ReactorState::Arming, ReactorEvent::Armed) => (
                ReactorState::DrainingArmed,
                ReactorAction::Drain,
            ),
            (ReactorState::DrainingArmed, ReactorEvent::Drained { n }) => if n > 0 {
                (ReactorState::Draining, ReactorAction::Ready)
            } else {
                (ReactorState::Waiting, ReactorAction::Wait)
            },
            (ReactorState::Waiting, ReactorEvent::NotReady) => (
                ReactorState::Draining,
                ReactorAction::Pending,
            ),
            (ReactorState::Waiting, ReactorEvent::Readable) => (
                ReactorState::Rearming,
                ReactorAction::ConsumeAndArm,
            ),
            (ReactorState::Rearming, ReactorEvent::Armed) => (
                ReactorState::DrainingArmed,
                ReactorAction::Drain,
            ),
            _ => (ReactorState::Draining, ReactorAction::Drain),
        }
    }
}

/// The descriptor is waited for, and the task parked, only after the channel was
/// armed and the queue then found empty, so no completion is slept through.
pub proof fn law_never_parks_unarmed(
    s0: ReactorState,
    e0: ReactorEvent,
    e1: ReactorEvent,
    e2: ReactorEvent,
)
    ensures
        ({
            let (s1, _) = stepped(s0, e0);
            let (s2, a2) = stepped(s1, e1);
            let (_, a3) = stepped(s2, e2);
            &&& a2 == ReactorAction::Wait ==> e0 == ReactorEvent::Armed && e1 == (
            ReactorEvent::Drained { n: 0 })
            &&& a3 == ReactorAction::Pending ==> e0 == ReactorEvent::Armed && e1 == (
            ReactorEvent::Drained { n: 0 }) && e2 == ReactorEvent::NotReady
        }),
{
}

/// A step reports progress only if something was drained or the peer is gone.
pub proof fn law_progress_is_real(s: ReactorState, e: ReactorEvent)
    ensures
        stepped(s, e).1 == ReactorAction::Ready ==> e == (ReactorEvent::Disconnected { gone: true })
            || (e matches ReactorEvent::Drained { n } && n > 0),
{
}

/// What the task that drives a shared connection does after one step: it always
/// wakes the waiting handles; an error closes the stream; it stops once the stream
/// is closed.
#[derive(Debug, Clone, Copy, PartialEq, Eq, Structural)]
pub struct PumpStep {
    /// Close the stream before waking the handles.
    pub close: bool,
    /// Stop afterwards.
    pub stop: bool,
}

/// Decides what the driving task does after one step.
pub fn pump_step(failed: bool, closed: bool) -> (r: PumpStep)
    ensures
        r.close == failed,
        r.stop == (failed || closed),
{
    PumpStep { close: failed, stop: failed || closed }
}

/// Whatever is drained, and a peer that is gone, is reported at once: the step ends
/// there, and the next one begins with draining.
pub proof fn law_progress_is_reported(s: ReactorState, n: usize)
    requires
        n > 0,
        s == ReactorState::Draining || s == ReactorState::DrainingArmed,
    ensures
        stepped(s, ReactorEvent::Drained { n }) == (ReactorState::Draining, ReactorAction::Ready),
        stepped(ReactorState::CheckingCm, ReactorEvent::Disconnected { gone: true }) == (
            ReactorState::Draining,
            ReactorAction::Ready,
        ),
{
}

/// A step that finds nothing looks at the queue and the connection manager, arms the
/// channel, looks at the queue once more and parks. A signal that came meanwhile is
/// consumed and the channel armed again before the queue is looked at once more.
pub proof fn law_idle_step_parks_armed()
    ensures
        ({
            let none = ReactorEvent::Drained { n: 0 };
            let (s1, a1) = stepped(ReactorState::Draining, none);
            let (s2, a2) = stepped(s1, ReactorEvent::Disconnected { gone: false });
            let (s3, a3) = stepped(s2, ReactorEvent::Armed);
            let (s4, a4) = stepped(s3, none);
            let (s5, a5) = stepped(s4, ReactorEvent::NotReady);
            let (s6, a6) = stepped(s4, ReactorEvent::Readable);
            let (s7, a7) = stepped(s6, ReactorEvent::Armed);
            &&& a1 == ReactorAction::CheckCm && a2 == ReactorAction::Arm
            &&& a3 == ReactorAction::Drain && a4 == ReactorAction::Wait
            &&& a5 == ReactorAction::Pending && s5 == ReactorState::Draining
            &&& a6 == ReactorAction::ConsumeAndArm && a7 == ReactorAction::Drain
            &&& stepped(s7, none) == (s4, a4)
        }),
{
}

} // verus!
