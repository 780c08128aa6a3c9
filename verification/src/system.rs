//! The server as a whole: any number of sessions and a liveness monitor
//! around one registry.
//!
//! Each operation on the registry is made while holding it, so whatever the
//! threads do amounts to some sequence of the events below. What holds of
//! every such sequence holds of the server.

use vstd::prelude::*;
use crate::registry::{touched, SubscriptionView};
use crate::session::{
    consistent, law_connect_keeps_consistency, law_keep_alive_keeps_consistency,
    law_poll_keeps_consistency, law_read_keeps_consistency, poll_outcome, read_outcome, ReadEvent,
    SessionState,
};

verus! {

/// The sessions there have been, in the order in which they connected, and
/// the entries of the registry.
pub struct System {
    pub sessions: Seq<SessionState>,
    pub entries: Map<u16, SubscriptionView>,
}

/// One step of the server.
pub enum SystemEvent {
    /// A connection is made: a new session.
    Connect,
    /// Session `which` makes its liveness check.
    Poll { which: int, timeout: u64, now: u64 },
    /// Session `which` takes the result of a read.
    Read { which: int, event: ReadEvent, universe: Seq<Seq<char>>, now: u64 },
    /// The liveness monitor takes a keep-alive of `id`.
    KeepAlive { id: u16, now: u64 },
}

/// The server before anything has happened.
pub open spec fn start() -> System {
    System { sessions: Seq::empty(), entries: Map::empty() }
}

/// The server after `event`. An event of a session that does not exist
/// changes nothing.
pub open spec fn after(system: System, event: SystemEvent) -> System {
    match event {
        SystemEvent::Connect => System {
            sessions: system.sessions.push(SessionState::Connected),
            entries: system.entries,
        },
        SystemEvent::Poll { which, timeout, now } => if 0 <= which < system.sessions.len() {
            let outcome = poll_outcome(system.sessions[which], system.entries, timeout, now);
            System {
                sessions: system.sessions.update(which, outcome.state),
                entries: outcome.entries,
            }
        } else {
            system
        },
        SystemEvent::Read { which, event, universe, now } => if 0 <= which
            < system.sessions.len() {
            let outcome = read_outcome(system.sessions[which], system.entries, event, universe, now);
            System {
                sessions: system.sessions.update(which, outcome.state),
                entries: outcome.entries,
            }
        } else {
            system
        },
        SystemEvent::KeepAlive { id, now } => System {
            sessions: system.sessions,
            entries: touched(system.entries, id, now),
        },
    }
}

/// The server after `events`, one after the other.
pub open spec fn run(events: Seq<SystemEvent>) -> System
    decreases events.len(),
{
    if events.len() == 0 {
        start()
    } else {
        after(run(events.drop_last()), events.last())
    }
}

/// Whatever happens, in whatever order, sessions and registry agree: an
/// identity is registered exactly while one session owns it, and no
/// identity is ever owned by two.
pub proof fn law_every_history_is_consistent(events: Seq<SystemEvent>)
    ensures
        consistent(run(events).sessions, run(events).entries),
    decreases events.len(),
{
    if events.len() > 0 {
        let before = run(events.drop_last());
        law_every_history_is_consistent(events.drop_last());
        match events.last() {
            SystemEvent::Connect => {
                law_connect_keeps_consistency(before.sessions, before.entries);
            },
            SystemEvent::Poll { which, timeout, now } => {
                if 0 <= which < before.sessions.len() {
                    law_poll_keeps_consistency(before.sessions, before.entries, which, timeout, now);
                }
            },
            SystemEvent::Read { which, event, universe, now } => {
                if 0 <= which < before.sessions.len() {
                    law_read_keeps_consistency(
                        before.sessions,
                        before.entries,
                        which,
                        event,
                        universe,
                        now,
                    );
                }
            },
            SystemEvent::KeepAlive { id, now } => {
                law_keep_alive_keeps_consistency(before.sessions, before.entries, id, now);
            },
        }
    }
}

/// Whatever has happened, a session that has ended has left nothing
/// behind: no identity is registered but those of sessions that stream.
pub proof fn law_registered_means_owned_by_a_live_session(events: Seq<SystemEvent>, id: u16)
    requires
        run(events).entries.contains_key(id),
    ensures
        exists|which: int|
            0 <= which < run(events).sessions.len() && #[trigger] run(events).sessions[which]
                == SessionState::Streaming(id),
{
    law_every_history_is_consistent(events);
}

/// A session that ends releases what it owns at that very step: after the
/// step that closes session `which`, the identity it owned is registered
/// no more.
pub proof fn law_ending_releases_at_once(system: System, event: SystemEvent, which: int, id: u16)
    requires
        consistent(system.sessions, system.entries),
        0 <= which < system.sessions.len(),
        system.sessions[which] == SessionState::Streaming(id),
        after(system, event).sessions[which] == SessionState::Closed,
    ensures
        !after(system, event).entries.contains_key(id),
{
    match event {
        SystemEvent::Connect => {},
        SystemEvent::KeepAlive { id: other, now } => {},
        SystemEvent::Poll { which: mover, timeout, now } => {
            if 0 <= mover < system.sessions.len() {
                assert(mover == which);
            }
        },
        SystemEvent::Read { which: mover, event, universe, now } => {
            if 0 <= mover < system.sessions.len() {
                assert(mover == which);
            }
        },
    }
}

} // verus!
