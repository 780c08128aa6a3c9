//! The control session: what one connection may do to the registry.
//!
//! A session is driven from outside. Whoever owns the connection asks
//! [`ControlSession::poll`] before each read and hands what the read gave to
//! [`ControlSession::on_read`]; each call is one short operation on the
//! registry and answers with what to do next.

use vstd::prelude::*;
use crate::command::{parse, parse_line, Command, CommandView};
use crate::error::SessionError;
use crate::registry::{stale_in, touched, SubscriptionRegistry, SubscriptionView};
use crate::symbols::{clone_symbols, symbols_of};

verus! {

/// Where a session stands.
#[derive(Clone, Copy, Debug, PartialEq, Eq, Structural)]
pub enum SessionState {
    /// Connected, with no subscription.
    Connected,
    /// Owner of the subscription of the given identity.
    Streaming(u16),
    /// Over. A closed session owns nothing and does nothing.
    Closed,
}

/// What an attempt to read a line from the peer gave.
#[derive(Debug)]
pub enum ReadEvent {
    /// A line arrived.
    Line(String),
    /// Nothing arrived within the poll interval.
    TimedOut,
    /// The peer has closed the connection.
    Disconnected,
    /// Reading failed; the text says how.
    Failed(String),
}

/// A line for the peer.
#[derive(Debug)]
pub enum Reply {
    /// Sent once, when the connection is made.
    Greeting,
    /// Acknowledges `EXIT`.
    Farewell,
    /// Reports why the session ends.
    Error(SessionError),
}

/// What the owner of the connection does next.
#[derive(Debug)]
pub enum Action {
    /// Go on reading.
    Continue,
    /// Send `reply`, if there is one and the peer can still be reached,
    /// then close the connection.
    Close { reply: Option<Reply> },
}

/// A session's state, the registry's entries and the action after a step.
pub struct Outcome {
    pub state: SessionState,
    pub entries: Map<u16, SubscriptionView>,
    pub action: Action,
}

/// The watch-list that a subscription gets: the requested one, or every
/// symbol of `universe` where none, or an empty one, was requested.
pub open spec fn expand(requested: Option<Seq<Seq<char>>>, universe: Seq<Seq<char>>) -> Seq<
    Seq<char>,
> {
    match requested {
        Some(list) => if list.len() > 0 {
            list
        } else {
            universe
        },
        None => universe,
    }
}

/// `entries` without what a session in `state` owns.
pub open spec fn release(state: SessionState, entries: Map<u16, SubscriptionView>) -> Map<
    u16,
    SubscriptionView,
> {
    match state {
        SessionState::Streaming(id) => entries.remove(id),
        _ => entries,
    }
}

/// The one way a session ends: what it owns is released, and it is closed.
pub open spec fn close_with(
    state: SessionState,
    entries: Map<u16, SubscriptionView>,
    reply: Option<Reply>,
) -> Outcome {
    Outcome {
        state: SessionState::Closed,
        entries: release(state, entries),
        action: Action::Close { reply },
    }
}

/// A step that changes nothing.
pub open spec fn stay(state: SessionState, entries: Map<u16, SubscriptionView>) -> Outcome {
    Outcome {
        state,
        entries,
        action: if state is Closed {
            Action::Close { reply: None }
        } else {
            Action::Continue
        },
    }
}

/// The liveness check before a read: a session whose subscription has gone
/// without a keep-alive for `timeout` or longer ends with `PingTimeout`.
pub open spec fn poll_outcome(
    state: SessionState,
    entries: Map<u16, SubscriptionView>,
    timeout: u64,
    now: u64,
) -> Outcome {
    match state {
        SessionState::Streaming(id) => if stale_in(entries, id, timeout, now) {
            close_with(state, entries, Some(Reply::Error(SessionError::PingTimeout(id))))
        } else {
            stay(state, entries)
        },
        _ => stay(state, entries),
    }
}

/// What a command does to a session that is not closed.
pub open spec fn command_outcome(
    state: SessionState,
    entries: Map<u16, SubscriptionView>,
    command: CommandView,
    universe: Seq<Seq<char>>,
    now: u64,
) -> Outcome {
    match command {
        CommandView::Exit => close_with(state, entries, Some(Reply::Farewell)),
        CommandView::Stream { port, watch_list } => if entries.contains_key(port) {
            close_with(state, entries, Some(Reply::Error(SessionError::PortInUse)))
        } else {
            Outcome {
                state: SessionState::Streaming(port),
                entries: release(state, entries).insert(
                    port,
                    SubscriptionView { last_seen: now, watch_list: expand(watch_list, universe) },
                ),
                action: Action::Continue,
            }
        },
    }
}

/// What the result of a read does to a session.
pub open spec fn read_outcome(
    state: SessionState,
    entries: Map<u16, SubscriptionView>,
    event: ReadEvent,
    universe: Seq<Seq<char>>,
    now: u64,
) -> Outcome {
    if state is Closed {
        stay(state, entries)
    } else {
        match event {
            ReadEvent::TimedOut => stay(state, entries),
            ReadEvent::Disconnected => close_with(state, entries, None),
            ReadEvent::Failed(reason) => close_with(
                state,
                entries,
                Some(Reply::Error(SessionError::Transport(reason))),
            ),
            ReadEvent::Line(text) => match parse(text@) {
                Ok(None) => stay(state, entries),
                Ok(Some(command)) => command_outcome(state, entries, command, universe, now),
                Err(error) => close_with(state, entries, Some(Reply::Error(error))),
            },
        }
    }
}

/// The watch-list for a new subscription: see [`expand`].
pub fn effective_watch_list(requested: Option<Vec<String>>, universe: &Vec<String>) -> (list:
    Vec<String>)
    ensures
        symbols_of(list@) == expand(
            match requested {
                Some(asked) => Some(symbols_of(asked@)),
                None => None,
            },
            symbols_of(universe@),
        ),
{
    match requested {
        Some(asked) => {
            if asked.len() > 0 {
                asked
            } else {
                clone_symbols(universe)
            }
        },
        None => clone_symbols(universe),
    }
}

/// One connection's session.
pub struct ControlSession {
    state: SessionState,
}

impl View for ControlSession {
    type V = SessionState;

    closed spec fn view(&self) -> SessionState {
        self.state
    }
}

impl ControlSession {
    /// A session for a connection that was just made.
    pub fn new() -> (session: Self)
        ensures
            session@ == SessionState::Connected,
    {
        ControlSession { state: SessionState::Connected }
    }

    /// Where the session stands.
    pub fn state(&self) -> (state: SessionState)
        ensures
            state == self@,
    {
        self.state
    }

    /// Ends the session: releases what it owns and closes it.
    fn close(&mut self, registry: &mut SubscriptionRegistry, reply: Option<Reply>) -> (action:
        Action)
        ensures
            final(self)@ == SessionState::Closed,
            final(registry)@ == release(old(self)@, old(registry)@),
            action == (Action::Close { reply }),
    {
        match self.state {
            SessionState::Streaming(id) => {
                registry.remove(id);
            },
            _ => {},
        }
        self.state = SessionState::Closed;
        Action::Close { reply }
    }

    /// The liveness check, made before each read: see [`poll_outcome`].
    pub fn poll(&mut self, registry: &mut SubscriptionRegistry, timeout: u64, now: u64) -> (action:
        Action)
        ensures
            final(self)@ == poll_outcome(old(self)@, old(registry)@, timeout, now).state,
            final(registry)@ == poll_outcome(old(self)@, old(registry)@, timeout, now).entries,
            action == poll_outcome(old(self)@, old(registry)@, timeout, now).action,
    {
        match self.state {
            SessionState::Streaming(id) => {
                if registry.is_stale(id, timeout, now) {
                    self.close(registry, Some(Reply::Error(SessionError::PingTimeout(id))))
                } else {
                    Action::Continue
                }
            },
            SessionState::Connected => Action::Continue,
            SessionState::Closed => Action::Close { reply: None },
        }
    }

    /// Takes what a read gave: see [`read_outcome`].
    pub fn on_read(
        &mut self,
        registry: &mut SubscriptionRegistry,
        event: ReadEvent,
        universe: &Vec<String>,
        now: u64,
    ) -> (action: Action)
        ensures
            final(self)@ == read_outcome(
                old(self)@,
                old(registry)@,
                event,
                symbols_of(universe@),
                now,
            ).state,
            final(registry)@ == read_outcome(
                old(self)@,
                old(registry)@,
                event,
                symbols_of(universe@),
                now,
            ).entries,
            action == read_outcome(
                old(self)@,
                old(registry)@,
                event,
                symbols_of(universe@),
                now,
            ).action,
    {
        if let SessionState::Closed = self.state {
            return Action::Close { reply: None };
        }
        match event {
            ReadEvent::TimedOut => Action::Continue,
            ReadEvent::Disconnected => self.close(registry, None),
            ReadEvent::Failed(reason) => self.close(
                registry,
                Some(Reply::Error(SessionError::Transport(reason))),
            ),
            ReadEvent::Line(text) => match parse_line(text.as_str()) {
                Ok(None) => Action::Continue,
                Ok(Some(Command::Exit)) => self.close(registry, Some(Reply::Farewell)),
                Ok(Some(Command::Stream { port, watch_list })) => {
                    if registry.contains(port) {
                        self.close(registry, Some(Reply::Error(SessionError::PortInUse)))
                    } else {
                        let list = effective_watch_list(watch_list, universe);
                        match self.state {
                            SessionState::Streaming(id) => {
                                registry.remove(id);
                            },
                            _ => {},
                        }
                        let _ = registry.register(port, list, now);
                        self.state = SessionState::Streaming(port);
                        Action::Continue
                    }
                },
                Err(error) => self.close(registry, Some(Reply::Error(error))),
            },
        }
    }
}

/// Whether the sessions and the registry agree on who is subscribed:
/// every streaming session's identity is registered, no two sessions own
/// the same identity, and every registered identity is owned by a session.
pub open spec fn consistent(sessions: Seq<SessionState>, entries: Map<u16, SubscriptionView>) -> bool {
    &&& forall|i: int|
        0 <= i < sessions.len() ==> (#[trigger] sessions[i] matches SessionState::Streaming(id)
            ==> entries.contains_key(id))
    &&& forall|i: int, j: int|
        0 <= i < j < sessions.len() && #[trigger] sessions[i] is Streaming ==> sessions[i]
            != #[trigger] sessions[j]
    &&& forall|id: u16| #[trigger]
        entries.contains_key(id) ==> exists|i: int|
            0 <= i < sessions.len() && #[trigger] sessions[i] == SessionState::Streaming(id)
}

/// With no session and an empty registry, sessions and registry agree.
pub proof fn law_start_is_consistent()
    ensures
        consistent(Seq::<SessionState>::empty(), Map::<u16, SubscriptionView>::empty()),
{
}

/// A new connection keeps sessions and registry in agreement.
pub proof fn law_connect_keeps_consistency(
    sessions: Seq<SessionState>,
    entries: Map<u16, SubscriptionView>,
)
    requires
        consistent(sessions, entries),
    ensures
        consistent(sessions.push(SessionState::Connected), entries),
{
    let grown = sessions.push(SessionState::Connected);
    assert forall|id: u16| #[trigger] entries.contains_key(id) implies exists|i: int|
        0 <= i < grown.len() && #[trigger] grown[i] == SessionState::Streaming(id) by {
        let at = choose|i: int|
            0 <= i < sessions.len() && #[trigger] sessions[i] == SessionState::Streaming(id);
        assert(grown[at] == SessionState::Streaming(id));
    }
}

/// Whatever a read gives to whichever session, sessions and registry stay
/// in agreement: no identity is ever owned twice, and none stays
/// registered without an owner.
pub proof fn law_read_keeps_consistency(
    sessions: Seq<SessionState>,
    entries: Map<u16, SubscriptionView>,
    which: int,
    event: ReadEvent,
    universe: Seq<Seq<char>>,
    now: u64,
)
    requires
        consistent(sessions, entries),
        0 <= which < sessions.len(),
    ensures
        consistent(
            sessions.update(which, read_outcome(sessions[which], entries, event, universe, now).state),
            read_outcome(sessions[which], entries, event, universe, now).entries,
        ),
{
    let after = read_outcome(sessions[which], entries, event, universe, now);
    lemma_step_keeps_consistency(sessions, entries, which, after);
}

/// The liveness check of whichever session keeps sessions and registry in
/// agreement.
pub proof fn law_poll_keeps_consistency(
    sessions: Seq<SessionState>,
    entries: Map<u16, SubscriptionView>,
    which: int,
    timeout: u64,
    now: u64,
)
    requires
        consistent(sessions, entries),
        0 <= which < sessions.len(),
    ensures
        consistent(
            sessions.update(which, poll_outcome(sessions[which], entries, timeout, now).state),
            poll_outcome(sessions[which], entries, timeout, now).entries,
        ),
{
    let after = poll_outcome(sessions[which], entries, timeout, now);
    lemma_step_keeps_consistency(sessions, entries, which, after);
}

/// A keep-alive, whoever it names, keeps sessions and registry in
/// agreement.
pub proof fn law_keep_alive_keeps_consistency(
    sessions: Seq<SessionState>,
    entries: Map<u16, SubscriptionView>,
    id: u16,
    now: u64,
)
    requires
        consistent(sessions, entries),
    ensures
        consistent(sessions, touched(entries, id, now)),
{
    let after = touched(entries, id, now);
    assert forall|any: u16| #[trigger] after.contains_key(any) implies exists|i: int|
        0 <= i < sessions.len() && #[trigger] sessions[i] == SessionState::Streaming(any) by {
        assert(entries.contains_key(any));
    }
}

/// A session that has ended owns nothing: what it owned is registered no
/// more, and once every session has ended the registry is empty.
pub proof fn law_ended_sessions_leave_nothing(
    sessions: Seq<SessionState>,
    entries: Map<u16, SubscriptionView>,
)
    requires
        consistent(sessions, entries),
        forall|i: int| 0 <= i < sessions.len() ==> #[trigger] sessions[i] is Closed,
    ensures
        entries == Map::<u16, SubscriptionView>::empty(),
{
    assert forall|id: u16| !entries.contains_key(id) by {
        if entries.contains_key(id) {
            let at = choose|i: int|
                0 <= i < sessions.len() && #[trigger] sessions[i] == SessionState::Streaming(id);
            assert(sessions[at] is Closed);
        }
    }
    assert(entries =~= Map::<u16, SubscriptionView>::empty());
}

/// A closed session stays closed and leaves the registry alone, so what it
/// owned is released once and not again.
pub proof fn law_closed_sessions_do_nothing(
    entries: Map<u16, SubscriptionView>,
    event: ReadEvent,
    universe: Seq<Seq<char>>,
    timeout: u64,
    now: u64,
)
    ensures
        read_outcome(SessionState::Closed, entries, event, universe, now).state
            == SessionState::Closed,
        read_outcome(SessionState::Closed, entries, event, universe, now).entries == entries,
        poll_outcome(SessionState::Closed, entries, timeout, now).state == SessionState::Closed,
        poll_outcome(SessionState::Closed, entries, timeout, now).entries == entries,
{
}

/// The shapes a step can take: the session stays as it is, ends and
/// releases what it owns, or takes a free identity in place of what it
/// owns.
spec fn is_step(state: SessionState, entries: Map<u16, SubscriptionView>, after: Outcome) -> bool {
    ||| after.state == state && after.entries == entries
    ||| after.state == SessionState::Closed && after.entries == release(state, entries)
    ||| exists|port: u16, entry: SubscriptionView|
        !entries.contains_key(port) && !(state is Closed) && after.state
            == SessionState::Streaming(port) && after.entries == #[trigger] release(
            state,
            entries,
        ).insert(port, entry)
}

proof fn lemma_step_keeps_consistency(
    sessions: Seq<SessionState>,
    entries: Map<u16, SubscriptionView>,
    which: int,
    after: Outcome,
)
    requires
        consistent(sessions, entries),
        0 <= which < sessions.len(),
        is_step(sessions[which], entries, after),
    ensures
        consistent(sessions.update(which, after.state), after.entries),
{
    let state = sessions[which];
    let moved = sessions.update(which, after.state);
    if after.state == state && after.entries == entries {
        assert(moved =~= sessions);
    } else {
        assert forall|i: int| 0 <= i < moved.len() implies (#[trigger] moved[i] matches SessionState::Streaming(
            id,
        ) ==> after.entries.contains_key(id)) by {
            if i != which {
                assert(moved[i] == sessions[i]);
                if which < i {
                    assert(sessions[which] is Streaming ==> sessions[which] != sessions[i]);
                } else {
                    assert(sessions[i] is Streaming ==> sessions[i] != sessions[which]);
                }
            }
        }
        assert forall|i: int, j: int|
            0 <= i < j < moved.len() && #[trigger] moved[i] is Streaming implies moved[i]
                != #[trigger] moved[j] by {
            if i != which && j != which {
                assert(moved[i] == sessions[i] && moved[j] == sessions[j]);
            } else if i == which {
                assert(moved[j] == sessions[j]);
                if let SessionState::Streaming(id) = sessions[j] {
                    assert(entries.contains_key(id));
                }
            } else {
                assert(moved[i] == sessions[i]);
                if let SessionState::Streaming(id) = sessions[i] {
                    assert(entries.contains_key(id));
                }
            }
        }
        assert forall|id: u16| #[trigger] after.entries.contains_key(id) implies exists|i: int|
            0 <= i < moved.len() && #[trigger] moved[i] == SessionState::Streaming(id) by {
            if after.state == SessionState::Streaming(id) {
                assert(moved[which] == SessionState::Streaming(id));
            } else {
                assert(entries.contains_key(id));
                let at = choose|i: int|
                    0 <= i < sessions.len() && #[trigger] sessions[i] == SessionState::Streaming(
                        id,
                    );
                assert(at != which);
                assert(moved[at] == SessionState::Streaming(id));
            }
        }
    }
}

} // verus!
