//! The connection supervisor: heartbeat liveness and the single teardown
//! of a session, whichever of its ends comes first.

use vstd::prelude::*;
use crate::events::ServerEvent;
use crate::state::AppState;
use crate::ws::{disconnect, teardown_post, Action};

verus! {

/// How long a session may stay silent before it is dropped, in ms.
pub const HEARTBEAT_TIMEOUT_MS: u64 = 60000;

/// How often a live session is pinged, in ms.
pub const PING_INTERVAL_MS: u64 = 30000;

/// More than the timeout has passed since the heartbeat at `last`.
pub open spec fn expired(last: u64, now: u64) -> bool {
    now > last && now - last > HEARTBEAT_TIMEOUT_MS
}

/// Whether more than the timeout has passed since the heartbeat at `last`.
pub fn heartbeat_expired(last: u64, now: u64) -> (r: bool)
    ensures
        r == expired(last, now),
{
    now > last && now - last > HEARTBEAT_TIMEOUT_MS
}

/// What ended, or woke, a session's supervisor.
pub enum Trigger {
    /// The inbound frame consumer ended.
    ReadEnded,
    /// The outbound queue drainer ended.
    WriteEnded,
    /// The ping timer fired at monotonic time `now` (ms).
    Tick(u64),
}

/// The outcome of one supervisor step: the actions to perform, and whether
/// the session is closed.
pub struct Step {
    pub actions: Vec<Action>,
    pub closed: bool,
}

/// The supervisor of one session.
pub struct Supervisor {
    pub session_id: u128,
    pub closed: bool,
}

impl Supervisor {
    /// Once closed, the session is gone from the registry.
    pub open spec fn wf(self, state: AppState) -> bool {
        self.closed ==> !state.live(self.session_id)
    }

    /// A supervisor for the newly registered session `session_id`.
    pub fn new(session_id: u128) -> (r: Supervisor)
        ensures
            r.session_id == session_id,
            !r.closed,
    {
        Supervisor { session_id, closed: false }
    }

    /// The single teardown path: the first call runs the teardown of the
    /// session; every later call does nothing.
    pub fn close(&mut self, state: &mut AppState) -> (r: Vec<Action>)
        requires
            old(state).wf(),
            old(self).wf(*old(state)),
        ensures
            final(state).wf(),
            final(self).closed,
            final(self).session_id == old(self).session_id,
            final(self).wf(*final(state)),
            !final(state).live(old(self).session_id),
            old(self).closed ==> r.len() == 0 && *final(state) == *old(state),
            !old(self).closed ==> teardown_post(*old(state), *final(state), old(self).session_id, r@),
    {
        if self.closed {
            return Vec::new();
        }
        self.closed = true;
        disconnect(self.session_id, state)
    }

    /// One step of the supervisor. The end of either direction closes the
    /// session; a tick closes it once more than the timeout has passed
    /// since its last heartbeat, and otherwise pings it. A closed
    /// supervisor does nothing.
    pub fn step(&mut self, trigger: Trigger, state: &mut AppState) -> (r: Step)
        requires
            old(state).wf(),
            old(self).wf(*old(state)),
        ensures
            final(state).wf(),
            final(self).wf(*final(state)),
            final(self).session_id == old(self).session_id,
            r.closed == final(self).closed,
            old(self).closed ==> r.closed && r.actions.len() == 0 && *final(state) == *old(state),
            !old(self).closed ==> match trigger {
                Trigger::Tick(now) => if old(state).live(old(self).session_id) && expired(
                    old(state).session(old(self).session_id).last_heartbeat,
                    now,
                ) {
                    r.closed && teardown_post(
                        *old(state),
                        *final(state),
                        old(self).session_id,
                        r.actions@,
                    )
                } else {
                    !r.closed && *final(state) == *old(state) && r.actions.len() == 1 && (
                    r.actions@[0] matches Action::Deliver { target, event: ServerEvent::Ping }
                        && target == old(self).session_id)
                },
                _ => r.closed && teardown_post(
                    *old(state),
                    *final(state),
                    old(self).session_id,
                    r.actions@,
                ),
            },
    {
        if self.closed {
            return Step { actions: Vec::new(), closed: true };
        }
        match trigger {
            Trigger::Tick(now) => {
                let expired_now = match state.find_user(self.session_id) {
                    Some(i) => {
                        proof {
                            state.lemma_index_of(i as int);
                        }
                        heartbeat_expired(state.users[i].last_heartbeat, now)
                    },
                    None => false,
                };
                if expired_now {
                    let actions = self.close(state);
                    Step { actions, closed: true }
                } else {
                    let mut actions: Vec<Action> = Vec::new();
                    actions.push(Action::Deliver { target: self.session_id, event: ServerEvent::Ping });
                    Step { actions, closed: false }
                }
            },
            _ => {
                let actions = self.close(state);
                Step { actions, closed: true }
            },
        }
    }
}

} // verus!
