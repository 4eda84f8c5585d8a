//! Bringing a lost connection back: how long to wait before each attempt, and
//! when to give up.

use crate::error::TunnelError;
use vstd::arithmetic::power2::{lemma2_to64, lemma_pow2_strictly_increases, pow2};
use vstd::prelude::*;

verus! {

/// How many attempts in a row are made to bring a lost connection back.
pub const MAX_RECONNECT_ATTEMPTS: u32 = 10;

/// Seconds beyond which a wait does not grow.
pub const MAX_BACKOFF_SECS: u64 = 30;

/// Seconds to wait before an attempt, when `failed` attempts before it have
/// failed: one second, doubled for each of them, up to the cap.
pub open spec fn backoff(failed: nat) -> nat {
    if pow2(failed) > MAX_BACKOFF_SECS {
        MAX_BACKOFF_SECS as nat
    } else {
        pow2(failed)
    }
}

/// Seconds to wait before an attempt, when `failed` attempts before it have
/// failed.
pub fn backoff_secs(failed: u32) -> (r: u64)
    ensures
        r == backoff(failed as nat),
        failed < 5 ==> r == pow2(failed as nat),
        failed >= 5 ==> r == 30,
{
    proof {
        lemma2_to64();
        if failed > 5 {
            lemma_pow2_strictly_increases(5, failed as nat);
        }
    }
    if failed == 0 {
        1
    } else if failed == 1 {
        2
    } else if failed == 2 {
        4
    } else if failed == 3 {
        8
    } else if failed == 4 {
        16
    } else {
        MAX_BACKOFF_SECS
    }
}

/// How one stretch of serving a connection ended.
#[derive(Debug, Clone, Copy, PartialEq, Eq, Structural)]
pub enum SupervisorExit {
    /// The tunnel was asked to stop.
    Shutdown,
    /// The edge is gone.
    ConnectionLost,
}

/// What the reactor is told.
#[derive(Debug, Clone, Copy, PartialEq, Eq, Structural)]
pub enum ReactorEvent {
    /// Serving the connection has ended.
    Exited(SupervisorExit),
    /// The attempt that was asked for has registered a connection.
    Registered,
    /// The attempt that was asked for has failed.
    AttemptFailed,
}

/// What is to be done next.
pub enum ReactorAction {
    /// Serve the connection.
    Supervise,
    /// Wait, then dial and register again.
    Reconnect { delay_secs: u64, replace_existing: bool },
    /// Unregister and close.
    Stop,
    /// Report this error and end.
    GiveUp(TunnelError),
}

/// The attempts in a row, and what is to be done, after an event. A lost
/// connection starts a row; each failure goes on with it until it is used up;
/// a registered connection ends it.
pub open spec fn reacts(attempts: u32, event: ReactorEvent) -> (u32, ReactorAction) {
    match event {
        ReactorEvent::Exited(SupervisorExit::Shutdown) => (attempts, ReactorAction::Stop),
        ReactorEvent::Exited(SupervisorExit::ConnectionLost) => (
            1,
            ReactorAction::Reconnect { delay_secs: backoff(0) as u64, replace_existing: true },
        ),
        ReactorEvent::Registered => (0, ReactorAction::Supervise),
        ReactorEvent::AttemptFailed => if attempts >= MAX_RECONNECT_ATTEMPTS {
            (attempts, ReactorAction::GiveUp(TunnelError::PermanentFailure(attempts)))
        } else {
            (
                (attempts + 1) as u32,
                ReactorAction::Reconnect {
                    delay_secs: backoff(attempts as nat) as u64,
                    replace_existing: true,
                },
            )
        },
    }
}

/// Keeps a tunnel up across lost connections.
pub struct Reactor {
    /// Attempts made in a row since the connection was lost.
    pub attempts: u32,
}

impl Reactor {
    /// No row is longer than it may be.
    pub open spec fn wf(&self) -> bool {
        self.attempts <= MAX_RECONNECT_ATTEMPTS
    }

    /// A reactor over a connection that has just been registered.
    pub fn new() -> (r: Self)
        ensures
            r.wf(),
            r.attempts == 0,
    {
        Reactor { attempts: 0 }
    }

    /// Takes in an event and says what is to be done.
    pub fn step(&mut self, event: ReactorEvent) -> (r: ReactorAction)
        ensures
            old(self).wf() ==> final(self).wf(),
            (final(self).attempts, r) == reacts(old(self).attempts, event),
            event == ReactorEvent::Exited(SupervisorExit::Shutdown) ==> r == ReactorAction::Stop
                && final(self).attempts == old(self).attempts,
            event == ReactorEvent::Exited(SupervisorExit::ConnectionLost) ==> r
                == (ReactorAction::Reconnect { delay_secs: 1, replace_existing: true })
                && final(self).attempts == 1,
            event == ReactorEvent::Registered ==> r == ReactorAction::Supervise
                && final(self).attempts == 0,
            event == ReactorEvent::AttemptFailed && old(self).attempts >= 10 ==> r
                == ReactorAction::GiveUp(TunnelError::PermanentFailure(old(self).attempts))
                && final(self).attempts == old(self).attempts,
            event == ReactorEvent::AttemptFailed && old(self).attempts < 10 ==> {
                &&& r matches ReactorAction::Reconnect { delay_secs, replace_existing }
                &&& replace_existing
                &&& old(self).attempts < 5 ==> delay_secs == pow2(old(self).attempts as nat)
                &&& old(self).attempts >= 5 ==> delay_secs == 30
                &&& final(self).attempts == old(self).attempts + 1
            },
    {
        proof {
            lemma2_to64();
        }
        match event {
            ReactorEvent::Exited(SupervisorExit::Shutdown) => ReactorAction::Stop,
            ReactorEvent::Exited(SupervisorExit::ConnectionLost) => {
                self.attempts = 1;
                ReactorAction::Reconnect { delay_secs: backoff_secs(0), replace_existing: true }
            },
            ReactorEvent::Registered => {
                self.attempts = 0;
                ReactorAction::Supervise
            },
            ReactorEvent::AttemptFailed => {
                if self.attempts >= MAX_RECONNECT_ATTEMPTS {
                    ReactorAction::GiveUp(TunnelError::PermanentFailure(self.attempts))
                } else {
                    let delay_secs = backoff_secs(self.attempts);
                    self.attempts = self.attempts + 1;
                    ReactorAction::Reconnect { delay_secs, replace_existing: true }
                }
            },
        }
    }
}

/// A wait is never shorter than a second nor longer than the cap, and grows
/// with the failures before it: it doubles until it reaches the cap and stays
/// there.
pub proof fn lemma_backoff_grows(failed: nat)
    ensures
        backoff(0) == 1,
        1 <= backoff(failed) <= 30,
        backoff(failed) <= backoff(failed + 1),
        backoff(failed + 1) == (if 2 * backoff(failed) > 30 {
            30
        } else {
            2 * backoff(failed)
        }),
{
    lemma2_to64();
    vstd::arithmetic::power2::lemma_pow2_pos(failed);
    vstd::arithmetic::power2::lemma_pow2_unfold(failed + 1);
}

/// The attempts in a row, and what is to be done, after a connection was lost
/// and `failures` attempts after that have failed.
pub open spec fn after_loss(failures: nat) -> (u32, ReactorAction)
    decreases failures,
{
    if failures == 0 {
        reacts(0, ReactorEvent::Exited(SupervisorExit::ConnectionLost))
    } else {
        reacts(after_loss((failures - 1) as nat).0, ReactorEvent::AttemptFailed)
    }
}

/// A lost connection is tried again after each failure, with the wait that the
/// failures so far ask for and in place of the old registration, until the row
/// of attempts is used up. Then the reactor gives up, and says how many
/// attempts it made.
pub proof fn lemma_reconnects_then_gives_up(failures: nat)
    ensures
        failures < MAX_RECONNECT_ATTEMPTS ==> after_loss(failures) == (
            (failures + 1) as u32,
            ReactorAction::Reconnect {
                delay_secs: backoff(failures) as u64,
                replace_existing: true,
            },
        ),
        failures >= MAX_RECONNECT_ATTEMPTS ==> after_loss(failures) == (
            MAX_RECONNECT_ATTEMPTS,
            ReactorAction::GiveUp(TunnelError::PermanentFailure(MAX_RECONNECT_ATTEMPTS)),
        ),
    decreases failures,
{
    if failures > 0 {
        lemma_reconnects_then_gives_up((failures - 1) as nat);
    }
}

/// What each event leads to. A stop is obeyed whatever was going on. A lost
/// connection is tried again after one second. A failed attempt is followed by
/// another while fewer than ten have been made, each asking to take the place
/// of the registration before it, and otherwise by the error that counts them.
pub proof fn lemma_events_lead_to(attempts: u32)
    ensures
        reacts(attempts, ReactorEvent::Exited(SupervisorExit::Shutdown)) == (
            attempts,
            ReactorAction::Stop,
        ),
        reacts(attempts, ReactorEvent::Exited(SupervisorExit::ConnectionLost)) == (
            1u32,
            ReactorAction::Reconnect { delay_secs: 1, replace_existing: true },
        ),
        reacts(attempts, ReactorEvent::Registered) == (0u32, ReactorAction::Supervise),
        attempts >= 10 ==> reacts(attempts, ReactorEvent::AttemptFailed) == (
            attempts,
            ReactorAction::GiveUp(TunnelError::PermanentFailure(attempts)),
        ),
        attempts < 10 ==> {
            &&& reacts(attempts, ReactorEvent::AttemptFailed).0 == attempts + 1
            &&& reacts(attempts, ReactorEvent::AttemptFailed).1
                matches ReactorAction::Reconnect { delay_secs, replace_existing }
            &&& replace_existing
            &&& attempts < 5 ==> delay_secs == pow2(attempts as nat)
            &&& attempts >= 5 ==> delay_secs == 30
        },
{
    lemma2_to64();
    if attempts > 5 {
        lemma_pow2_strictly_increases(5, attempts as nat);
    }
}

/// A registered connection starts afresh: whatever failed before it, losing it
/// leads to the first wait again.
pub proof fn lemma_registration_starts_afresh(attempts: u32)
    ensures
        reacts(attempts, ReactorEvent::Registered) == (0u32, ReactorAction::Supervise),
        reacts(
            reacts(attempts, ReactorEvent::Registered).0,
            ReactorEvent::Exited(SupervisorExit::ConnectionLost),
        ) == after_loss(0),
{
}

} // verus!
