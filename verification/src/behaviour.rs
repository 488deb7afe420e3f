//! The coordinator of the sync protocol: it owns the handler of each live
//! connection and the session of each pair of peer and document, routes
//! commands to handlers and what handlers report to sessions, and hands out
//! its work one piece at a time.

use crate::handler::{
    Command, CommandView, ConnectionEvent, ConnectionHandlerEvent, ConnectionHandlerEventView,
    Handler, HandlerEvent, HandlerEventView, HandlerView, fresh_handler,
    handler_after_bytes, handler_after_command, handler_after_commands,
    handler_after_connection_event, handler_after_poll, handler_after_send, handler_poll_answer,
    views,
};
use crate::identity::{copy_bytes, strings_equal, PeerIdentity};
use crate::messages::{
    DocumentSyncError, DocumentSyncErrorView, Message, MessageView, OneOfmsg, Reason,
    SyncErrorReason, SyncErrorReasonView,
};
use std::collections::VecDeque;
use vstd::prelude::*;

verus! {

/// How far the sync of one document with one peer has come.
#[derive(Debug, Clone, Copy, PartialEq, Eq, Structural)]
pub enum SessionState {
    Idle,
    Requesting,
    Syncing,
    Synced,
    Errored,
}

/// The sync of one document with one peer.
#[derive(Debug, Clone, PartialEq, Eq)]
pub struct SyncSession {
    pub peer: PeerIdentity,
    pub document_id: String,
    pub state: SessionState,
}

/// A session as a mathematical value.
pub struct SyncSessionView {
    pub peer: Seq<u8>,
    pub document_id: Seq<char>,
    pub state: SessionState,
}

impl View for SyncSession {
    type V = SyncSessionView;

    open spec fn view(&self) -> SyncSessionView {
        SyncSessionView { peer: self.peer@, document_id: self.document_id@, state: self.state }
    }
}

/// What the protocol tells the application.
#[derive(Debug, Clone, PartialEq, Eq)]
pub enum Event {
    DocumentSynced { peer: PeerIdentity, document_id: String },
    DocumentChanged { peer: PeerIdentity, document_id: String },
    SyncRequested { peer: PeerIdentity, document_id: String },
    SyncError { peer: PeerIdentity, document_id: String, reason: Reason, error: String },
}

/// An event as a mathematical value.
pub enum EventView {
    DocumentSynced { peer: Seq<u8>, document_id: Seq<char> },
    DocumentChanged { peer: Seq<u8>, document_id: Seq<char> },
    SyncRequested { peer: Seq<u8>, document_id: Seq<char> },
    SyncError { peer: Seq<u8>, document_id: Seq<char>, reason: Reason, error: Seq<char> },
}

impl View for Event {
    type V = EventView;

    open spec fn view(&self) -> EventView {
        match *self {
            Event::DocumentSynced { peer, document_id } => EventView::DocumentSynced {
                peer: peer@,
                document_id: document_id@,
            },
            Event::DocumentChanged { peer, document_id } => EventView::DocumentChanged {
                peer: peer@,
                document_id: document_id@,
            },
            Event::SyncRequested { peer, document_id } => EventView::SyncRequested {
                peer: peer@,
                document_id: document_id@,
            },
            Event::SyncError { peer, document_id, reason, error } => EventView::SyncError {
                peer: peer@,
                document_id: document_id@,
                reason,
                error: error@,
            },
        }
    }
}

/// A live connection: the peer at its other end, and its handler.
pub struct Connection {
    pub peer: PeerIdentity,
    pub handler: Handler,
}

/// A connection as a mathematical value.
pub struct ConnectionView {
    pub peer: Seq<u8>,
    pub handler: HandlerView,
}

impl View for Connection {
    type V = ConnectionView;

    open spec fn view(&self) -> ConnectionView {
        ConnectionView { peer: self.peer@, handler: self.handler@ }
    }
}

/// What the engine tells the coordinator about connections.
#[derive(Debug, Clone, PartialEq, Eq)]
pub enum FromSwarm {
    ConnectionEstablished { peer_id: PeerIdentity },
    ConnectionClosed { peer_id: PeerIdentity },
    Other,
}

/// One piece of work that the coordinator hands to its owner.
#[derive(Debug, Clone, PartialEq, Eq)]
pub enum ToSwarm {
    /// Hand this event to the application.
    GenerateEvent(Event),
    /// Open a stream on the connection to this peer.
    OpenStream { peer_id: PeerIdentity },
    /// Write these bytes, one message, to the stream to this peer.
    Write { peer_id: PeerIdentity, bytes: Vec<u8> },
}

/// A piece of work as a mathematical value.
pub enum ToSwarmView {
    GenerateEvent(EventView),
    OpenStream { peer_id: Seq<u8> },
    Write { peer_id: Seq<u8>, bytes: Seq<u8> },
}

impl View for ToSwarm {
    type V = ToSwarmView;

    open spec fn view(&self) -> ToSwarmView {
        match *self {
            ToSwarm::GenerateEvent(e) => ToSwarmView::GenerateEvent(e@),
            ToSwarm::OpenStream { peer_id } => ToSwarmView::OpenStream { peer_id: peer_id@ },
            ToSwarm::Write { peer_id, bytes } => ToSwarmView::Write {
                peer_id: peer_id@,
                bytes: bytes@,
            },
        }
    }
}

/// The coordinator: the events that wait for the application, the sessions,
/// the commands that wait for a peer to connect, and the live connections;
/// every queue with the oldest entry first.
pub struct Behaviour {
    queued_events: VecDeque<Event>,
    active_syncs: Vec<SyncSession>,
    pending_commands: Vec<Command>,
    handlers: Vec<Connection>,
}

/// The coordinator as a mathematical value.
pub struct BehaviourView {
    pub events: Seq<EventView>,
    pub sessions: Seq<SyncSessionView>,
    pub pending: Seq<CommandView>,
    pub handlers: Seq<ConnectionView>,
}

impl View for Behaviour {
    type V = BehaviourView;

    closed spec fn view(&self) -> BehaviourView {
        BehaviourView {
            events: views(self.queued_events@),
            sessions: views(self.active_syncs@),
            pending: views(self.pending_commands@),
            handlers: views(self.handlers@),
        }
    }
}

/// The index of the first value of `s` that meets `pred`, or the length of
/// `s` where none does.
pub open spec fn first_index<T>(s: Seq<T>, pred: spec_fn(T) -> bool) -> int
    decreases s.len(),
{
    if s.len() == 0 {
        0
    } else if pred(s[0]) {
        0
    } else {
        1 + first_index(s.drop_first(), pred)
    }
}

/// The first index is within the sequence or at its end, what stands there
/// meets the predicate, and nothing before it does.
pub proof fn lemma_first_index_is_first<T>(s: Seq<T>, pred: spec_fn(T) -> bool)
    ensures
        0 <= first_index(s, pred) <= s.len(),
        first_index(s, pred) < s.len() ==> pred(s[first_index(s, pred)]),
        forall|k: int| 0 <= k < first_index(s, pred) ==> !pred(#[trigger] s[k]),
    decreases s.len(),
{
    if s.len() > 0 && !pred(s[0]) {
        let tail = s.drop_first();
        lemma_first_index_is_first(tail, pred);
        assert forall|k: int| 0 <= k < first_index(s, pred) implies !pred(#[trigger] s[k]) by {
            if k > 0 {
                assert(s[k] == tail[k - 1]);
            }
        }
    }
}

/// An index is the first index if what stands there meets the predicate, or
/// it is the end, and nothing before it meets the predicate.
pub proof fn lemma_first_index_found<T>(s: Seq<T>, pred: spec_fn(T) -> bool, i: int)
    requires
        0 <= i <= s.len(),
        i < s.len() ==> pred(s[i]),
        forall|k: int| 0 <= k < i ==> !pred(#[trigger] s[k]),
    ensures
        first_index(s, pred) == i,
{
    lemma_first_index_is_first(s, pred);
    let f = first_index(s, pred);
    if f < i {
        assert(!pred(s[f]));
    }
}

/// The predicate "is the connection to `peer`".
pub open spec fn connects(peer: Seq<u8>) -> spec_fn(ConnectionView) -> bool {
    |c: ConnectionView| c.peer == peer
}

/// The predicate "is the session of `peer` and `document`".
pub open spec fn is_session_of(peer: Seq<u8>, document: Seq<char>) -> spec_fn(
    SyncSessionView,
) -> bool {
    |s: SyncSessionView| s.peer == peer && s.document_id == document
}

/// The predicate "has work that a poll would hand out".
pub open spec fn has_work() -> spec_fn(ConnectionView) -> bool {
    |c: ConnectionView| !(handler_poll_answer(c.handler) is Pending)
}

/// Where the connection to `peer` stands among the connections; their
/// count where there is none.
pub open spec fn handler_position(handlers: Seq<ConnectionView>, peer: Seq<u8>) -> int {
    first_index(handlers, connects(peer))
}

/// Whether there is a connection to `peer`.
pub open spec fn is_connected(handlers: Seq<ConnectionView>, peer: Seq<u8>) -> bool {
    handler_position(handlers, peer) < handlers.len()
}

/// Where the session of `peer` and `document` stands among the sessions;
/// their count where there is none.
pub open spec fn session_position(
    sessions: Seq<SyncSessionView>,
    peer: Seq<u8>,
    document: Seq<char>,
) -> int {
    first_index(sessions, is_session_of(peer, document))
}

/// The state of the session of `peer` and `document`, if there is one.
pub open spec fn session_state_of(
    sessions: Seq<SyncSessionView>,
    peer: Seq<u8>,
    document: Seq<char>,
) -> Option<SessionState> {
    let i = session_position(sessions, peer, document);
    if i < sessions.len() {
        Some(sessions[i].state)
    } else {
        None
    }
}

/// A session is active while it is `Requesting` or `Syncing`.
pub open spec fn is_active(state: SessionState) -> bool {
    state == SessionState::Requesting || state == SessionState::Syncing
}

/// The sessions with the session of `peer` and `document` in state `state`:
/// put there if it exists, added at the end if not.
pub open spec fn with_session_state(
    sessions: Seq<SyncSessionView>,
    peer: Seq<u8>,
    document: Seq<char>,
    state: SessionState,
) -> Seq<SyncSessionView> {
    let i = session_position(sessions, peer, document);
    if i < sessions.len() {
        sessions.update(i, SyncSessionView { state, ..sessions[i] })
    } else {
        sessions.push(SyncSessionView { peer, document_id: document, state })
    }
}

/// No two sessions are of the same peer and document.
pub open spec fn sessions_distinct(sessions: Seq<SyncSessionView>) -> bool {
    forall|i: int, j: int|
        0 <= i < j < sessions.len() ==> !(#[trigger] sessions[i].peer == #[trigger] sessions[j].peer
            && sessions[i].document_id == sessions[j].document_id)
}

/// No two connections are to the same peer.
pub open spec fn handlers_distinct(handlers: Seq<ConnectionView>) -> bool {
    forall|i: int, j: int|
        0 <= i < j < handlers.len() ==> #[trigger] handlers[i].peer != #[trigger] handlers[j].peer
}

/// Whether `command` names a peer and that peer is not connected.
pub open spec fn waits_for_absent_peer(handlers: Seq<ConnectionView>, command: CommandView)
    -> bool {
    command.target() matches Some(p) && !is_connected(handlers, p)
}

impl BehaviourView {
    /// What holds of a coordinator at rest: there is at most one session
    /// for each pair of peer and document and at most one connection to
    /// each peer; no report waits in a handler; and a command waits for a
    /// peer only while that peer is not connected.
    pub open spec fn wf(self) -> bool {
        &&& sessions_distinct(self.sessions)
        &&& handlers_distinct(self.handlers)
        &&& forall|i: int|
            0 <= i < self.handlers.len() ==> (#[trigger] self.handlers[i]).handler.events.len() == 0
        &&& forall|k: int|
            0 <= k < self.pending.len() ==> waits_for_absent_peer(
                self.handlers,
                #[trigger] self.pending[k],
            )
    }

    /// The coordinator with `event` behind the events that wait.
    pub open spec fn emit(self, event: EventView) -> BehaviourView {
        BehaviourView { events: self.events.push(event), ..self }
    }

    /// The coordinator once `command` is on its way to `peer`: accepted by
    /// the handler of the connection to `peer`, or waiting for `peer` to
    /// connect.
    pub open spec fn deliver(self, peer: Seq<u8>, command: CommandView) -> BehaviourView {
        let i = handler_position(self.handlers, peer);
        if i < self.handlers.len() {
            BehaviourView {
                handlers: self.handlers.update(
                    i,
                    ConnectionView {
                        handler: handler_after_command(self.handlers[i].handler, command),
                        ..self.handlers[i]
                    },
                ),
                ..self
            }
        } else {
            BehaviourView { pending: self.pending.push(command), ..self }
        }
    }

    /// The coordinator once `message` waits for the stream to `peer`; as it
    /// was where `peer` is not connected.
    pub open spec fn reply(self, peer: Seq<u8>, message: MessageView) -> BehaviourView {
        let i = handler_position(self.handlers, peer);
        if i < self.handlers.len() {
            BehaviourView {
                handlers: self.handlers.update(
                    i,
                    ConnectionView {
                        handler: handler_after_send(self.handlers[i].handler, message),
                        ..self.handlers[i]
                    },
                ),
                ..self
            }
        } else {
            self
        }
    }

    /// The coordinator with the session of `peer` and `document` in state
    /// `state`.
    pub open spec fn set_session(self, peer: Seq<u8>, document: Seq<char>, state: SessionState)
        -> BehaviourView {
        BehaviourView {
            sessions: with_session_state(self.sessions, peer, document, state),
            ..self
        }
    }
}

/// The error that the coordinator raises by itself, without free text.
pub open spec fn local_error(peer: Seq<u8>, document: Seq<char>, reason: Reason) -> EventView {
    EventView::SyncError { peer, document_id: document, reason, error: Seq::empty() }
}

impl Behaviour {
    /// What holds of a coordinator at rest.
    pub open spec fn wf(&self) -> bool {
        self@.wf()
    }

    /// A coordinator without sessions, connections or work.
    pub fn new() -> (r: Behaviour)
        ensures
            r.wf(),
            r@.events.len() == 0,
            r@.sessions.len() == 0,
            r@.pending.len() == 0,
            r@.handlers.len() == 0,
    {
        Behaviour {
            queued_events: VecDeque::new(),
            active_syncs: Vec::new(),
            pending_commands: Vec::new(),
            handlers: Vec::new(),
        }
    }

    /// The count of sessions.
    pub fn session_count(&self) -> (r: usize)
        ensures
            r == self@.sessions.len(),
    {
        self.active_syncs.len()
    }

    /// The count of commands that wait for a peer to connect.
    pub fn pending_count(&self) -> (r: usize)
        ensures
            r == self@.pending.len(),
    {
        self.pending_commands.len()
    }

    /// The count of live connections.
    pub fn handler_count(&self) -> (r: usize)
        ensures
            r == self@.handlers.len(),
    {
        self.handlers.len()
    }

    /// The count of events that wait for the application.
    pub fn event_count(&self) -> (r: usize)
        ensures
            r == self@.events.len(),
    {
        self.queued_events.len()
    }

    /// Finds the connection to `peer`.
    pub fn find_handler(&self, peer: &PeerIdentity) -> (r: usize)
        ensures
            r == handler_position(self@.handlers, peer@),
            r <= self@.handlers.len(),
    {
        let mut i: usize = 0;
        while i < self.handlers.len()
            invariant
                i <= self.handlers.len(),
                forall|k: int| 0 <= k < i ==> !connects(peer@)(#[trigger] self@.handlers[k]),
            decreases self.handlers.len() - i,
        {
            if self.handlers[i].peer.same_as(peer) {
                proof {
                    lemma_first_index_found(self@.handlers, connects(peer@), i as int);
                }
                return i;
            }
            i += 1;
        }
        proof {
            lemma_first_index_found(self@.handlers, connects(peer@), i as int);
        }
        i
    }

    /// Finds the session of `peer` and `document`.
    pub fn find_session(&self, peer: &PeerIdentity, document: &String) -> (r: usize)
        ensures
            r == session_position(self@.sessions, peer@, document@),
            r <= self@.sessions.len(),
    {
        let mut i: usize = 0;
        while i < self.active_syncs.len()
            invariant
                i <= self.active_syncs.len(),
                forall|k: int|
                    0 <= k < i ==> !is_session_of(peer@, document@)(#[trigger] self@.sessions[k]),
            decreases self.active_syncs.len() - i,
        {
            if self.active_syncs[i].peer.same_as(peer) && strings_equal(
                &self.active_syncs[i].document_id,
                document,
            ) {
                proof {
                    lemma_first_index_found(
                        self@.sessions,
                        is_session_of(peer@, document@),
                        i as int,
                    );
                }
                return i;
            }
            i += 1;
        }
        proof {
            lemma_first_index_found(self@.sessions, is_session_of(peer@, document@), i as int);
        }
        i
    }

    /// The state of the session of `peer` and `document`, if there is one.
    pub fn session_state(&self, peer: &PeerIdentity, document: &String) -> (r: Option<
        SessionState,
    >)
        ensures
            r == session_state_of(self@.sessions, peer@, document@),
    {
        let i = self.find_session(peer, document);
        if i < self.active_syncs.len() {
            Some(self.active_syncs[i].state)
        } else {
            None
        }
    }

    /// Whether there is a connection to `peer`.
    pub fn has_handler(&self, peer: &PeerIdentity) -> (r: bool)
        ensures
            r == is_connected(self@.handlers, peer@),
    {
        self.find_handler(peer) < self.handlers.len()
    }
}

/// Replacing a connection by one to the same peer moves no connection.
pub proof fn lemma_position_after_update(
    handlers: Seq<ConnectionView>,
    i: int,
    c: ConnectionView,
    peer: Seq<u8>,
)
    requires
        0 <= i < handlers.len(),
        c.peer == handlers[i].peer,
    ensures
        handler_position(handlers.update(i, c), peer) == handler_position(handlers, peer),
{
    let after = handlers.update(i, c);
    lemma_first_index_is_first(handlers, connects(peer));
    let f = handler_position(handlers, peer);
    assert forall|k: int| 0 <= k < f implies !connects(peer)(#[trigger] after[k]) by {
        assert(!connects(peer)(handlers[k]));
    }
    lemma_first_index_found(after, connects(peer), f);
}

/// Adding a connection to a peer that had none moves no connection, and
/// the new one stands at the end.
pub proof fn lemma_position_after_push(
    handlers: Seq<ConnectionView>,
    c: ConnectionView,
    peer: Seq<u8>,
)
    requires
        !is_connected(handlers, c.peer),
    ensures
        handler_position(handlers.push(c), peer) == (if peer == c.peer {
            handlers.len() as int
        } else if is_connected(handlers, peer) {
            handler_position(handlers, peer)
        } else {
            handlers.len() as int + 1
        }),
{
    let after = handlers.push(c);
    lemma_first_index_is_first(handlers, connects(peer));
    lemma_first_index_is_first(handlers, connects(c.peer));
    let f = handler_position(handlers, peer);
    assert forall|k: int| 0 <= k < f implies !connects(peer)(#[trigger] after[k]) by {
        assert(!connects(peer)(handlers[k]));
    }
    if peer == c.peer {
        lemma_first_index_found(after, connects(peer), handlers.len() as int);
    } else if f < handlers.len() {
        lemma_first_index_found(after, connects(peer), f);
    } else {
        lemma_first_index_found(after, connects(peer), handlers.len() as int + 1);
    }
}

/// A command on its way leaves the coordinator well formed.
pub proof fn lemma_deliver_keeps_wf(b: BehaviourView, peer: Seq<u8>, command: CommandView)
    requires
        b.wf(),
        command.target() == Some(peer),
    ensures
        b.deliver(peer, command).wf(),
        b.deliver(peer, command).sessions == b.sessions,
        b.deliver(peer, command).events == b.events,
        forall|p: Seq<u8>|
            is_connected(b.deliver(peer, command).handlers, p) == is_connected(b.handlers, p),
{
    let after = b.deliver(peer, command);
    let i = handler_position(b.handlers, peer);
    lemma_first_index_is_first(b.handlers, connects(peer));
    if i < b.handlers.len() {
        let c = ConnectionView {
            handler: handler_after_command(b.handlers[i].handler, command),
            ..b.handlers[i]
        };
        assert forall|p: Seq<u8>|
            is_connected(after.handlers, p) == is_connected(b.handlers, p) by {
            lemma_position_after_update(b.handlers, i, c, p);
        }
        assert forall|k: int| 0 <= k < after.pending.len() implies waits_for_absent_peer(
            after.handlers,
            #[trigger] after.pending[k],
        ) by {
            assert(waits_for_absent_peer(b.handlers, b.pending[k]));
        }
    } else {
        assert forall|k: int| 0 <= k < after.pending.len() implies waits_for_absent_peer(
            after.handlers,
            #[trigger] after.pending[k],
        ) by {
            if k < b.pending.len() {
                assert(waits_for_absent_peer(b.handlers, b.pending[k]));
            }
        }
    }
}

/// A reply on its way leaves the coordinator well formed.
pub proof fn lemma_reply_keeps_wf(b: BehaviourView, peer: Seq<u8>, message: MessageView)
    requires
        b.wf(),
    ensures
        b.reply(peer, message).wf(),
        forall|p: Seq<u8>|
            is_connected(b.reply(peer, message).handlers, p) == is_connected(b.handlers, p),
{
    let after = b.reply(peer, message);
    let i = handler_position(b.handlers, peer);
    lemma_first_index_is_first(b.handlers, connects(peer));
    if i < b.handlers.len() {
        let c = ConnectionView {
            handler: handler_after_send(b.handlers[i].handler, message),
            ..b.handlers[i]
        };
        assert forall|p: Seq<u8>|
            is_connected(after.handlers, p) == is_connected(b.handlers, p) by {
            lemma_position_after_update(b.handlers, i, c, p);
        }
        assert forall|k: int| 0 <= k < after.pending.len() implies waits_for_absent_peer(
            after.handlers,
            #[trigger] after.pending[k],
        ) by {
            assert(waits_for_absent_peer(b.handlers, b.pending[k]));
        }
    }
}

/// Putting a session into a state keeps the sessions distinct: the session
/// of a peer and a document is changed where it stands, and added only
/// where there was none.
pub proof fn lemma_set_session_keeps_distinct(
    sessions: Seq<SyncSessionView>,
    peer: Seq<u8>,
    document: Seq<char>,
    state: SessionState,
)
    requires
        sessions_distinct(sessions),
    ensures
        sessions_distinct(with_session_state(sessions, peer, document, state)),
        session_state_of(with_session_state(sessions, peer, document, state), peer, document)
            == Some(state),
        with_session_state(sessions, peer, document, state).len() == (if session_position(
            sessions,
            peer,
            document,
        ) < sessions.len() {
            sessions.len() as int
        } else {
            sessions.len() as int + 1
        }),
{
    let after = with_session_state(sessions, peer, document, state);
    let pred = is_session_of(peer, document);
    lemma_first_index_is_first(sessions, pred);
    let i = session_position(sessions, peer, document);
    assert forall|k: int| 0 <= k < i implies !pred(#[trigger] after[k]) by {
        assert(!pred(sessions[k]));
    }
    lemma_first_index_found(after, pred, i);
    assert forall|a: int, b: int| 0 <= a < b < after.len() implies !(#[trigger] after[a].peer
        == #[trigger] after[b].peer && after[a].document_id == after[b].document_id) by {
        if i < sessions.len() {
            assert(!(sessions[a].peer == sessions[b].peer && sessions[a].document_id
                == sessions[b].document_id));
        } else if b < sessions.len() {
            assert(!(sessions[a].peer == sessions[b].peer && sessions[a].document_id
                == sessions[b].document_id));
        } else {
            assert(!pred(sessions[a]));
        }
    }
}

/// Putting a session into a state leaves the coordinator well formed.
pub proof fn lemma_set_session_keeps_wf(
    b: BehaviourView,
    peer: Seq<u8>,
    document: Seq<char>,
    state: SessionState,
)
    requires
        b.wf(),
    ensures
        b.set_session(peer, document, state).wf(),
{
    lemma_set_session_keeps_distinct(b.sessions, peer, document, state);
    let after = b.set_session(peer, document, state);
    assert forall|k: int| 0 <= k < after.pending.len() implies waits_for_absent_peer(
        after.handlers,
        #[trigger] after.pending[k],
    ) by {
        assert(waits_for_absent_peer(b.handlers, b.pending[k]));
    }
}

/// An event more leaves the coordinator well formed.
pub proof fn lemma_emit_keeps_wf(b: BehaviourView, event: EventView)
    requires
        b.wf(),
    ensures
        b.emit(event).wf(),
{
    let after = b.emit(event);
    assert forall|k: int| 0 <= k < after.pending.len() implies waits_for_absent_peer(
        after.handlers,
        #[trigger] after.pending[k],
    ) by {
        assert(waits_for_absent_peer(b.handlers, b.pending[k]));
    }
}

impl Behaviour {
    /// Puts `event` behind the events that wait for the application.
    fn emit(&mut self, event: Event)
        ensures
            final(self)@ == old(self)@.emit(event@),
            old(self).wf() ==> final(self).wf(),
    {
        self.queued_events.push_back(event);
        assert(final(self)@.events =~= old(self)@.events.push(event@));
        proof {
            if old(self).wf() {
                lemma_emit_keeps_wf(old(self)@, event@);
            }
        }
    }

    /// Sends `command` on its way to `peer`: into the handler of the
    /// connection to `peer`, or among the commands that wait for `peer` to
    /// connect.
    fn deliver(&mut self, peer: &PeerIdentity, command: Command)
        requires
            old(self).wf(),
            command@.target() == Some(peer@),
        ensures
            final(self)@ == old(self)@.deliver(peer@, command@),
            final(self).wf(),
    {
        proof {
            lemma_deliver_keeps_wf(self@, peer@, command@);
        }
        let i = self.find_handler(peer);
        if i < self.handlers.len() {
            self.handlers[i].handler.on_command(command);
            assert(final(self)@.handlers =~= old(self)@.handlers.update(
                i as int,
                ConnectionView {
                    handler: handler_after_command(old(self)@.handlers[i as int].handler, command@),
                    ..old(self)@.handlers[i as int]
                },
            ));
        } else {
            self.pending_commands.push(command);
            assert(final(self)@.pending =~= old(self)@.pending.push(command@));
        }
    }

    /// Puts `message` behind what waits for the stream to `peer`, if `peer`
    /// is connected.
    fn reply(&mut self, peer: &PeerIdentity, message: Message)
        requires
            old(self).wf(),
        ensures
            final(self)@ == old(self)@.reply(peer@, message@),
            final(self).wf(),
    {
        proof {
            lemma_reply_keeps_wf(self@, peer@, message@);
        }
        let i = self.find_handler(peer);
        if i < self.handlers.len() {
            self.handlers[i].handler.send(message);
            assert(final(self)@.handlers =~= old(self)@.handlers.update(
                i as int,
                ConnectionView {
                    handler: handler_after_send(old(self)@.handlers[i as int].handler, message@),
                    ..old(self)@.handlers[i as int]
                },
            ));
        }
    }

    /// Puts the session of `peer` and `document` into `state`, adding the
    /// session where there is none.
    fn set_session(&mut self, peer: &PeerIdentity, document: &String, state: SessionState)
        requires
            old(self).wf(),
        ensures
            final(self)@ == old(self)@.set_session(peer@, document@, state),
            final(self).wf(),
    {
        proof {
            lemma_set_session_keeps_wf(self@, peer@, document@, state);
        }
        let i = self.find_session(peer, document);
        if i < self.active_syncs.len() {
            self.active_syncs[i].state = state;
            assert(final(self)@.sessions =~= old(self)@.sessions.update(
                i as int,
                SyncSessionView { state, ..old(self)@.sessions[i as int] },
            ));
        } else {
            self.active_syncs.push(
                SyncSession { peer: peer.duplicate(), document_id: document.clone(), state },
            );
            assert(final(self)@.sessions =~= old(self)@.sessions.push(
                SyncSessionView { peer: peer@, document_id: document@, state },
            ));
        }
    }
}

impl BehaviourView {
    /// The coordinator after the command to start the sync of `document`
    /// with `peer`: as it was where the session is active; else with the
    /// session in `Requesting` and the command on its way to `peer`.
    pub open spec fn start_sync(self, peer: Seq<u8>, document: Seq<char>) -> BehaviourView {
        let state = session_state_of(self.sessions, peer, document);
        if state is Some && is_active(state->0) {
            self
        } else {
            self.set_session(peer, document, SessionState::Requesting).deliver(
                peer,
                CommandView::StartSync { document_id: document, peer },
            )
        }
    }

    /// The coordinator after a command that needs the active session of
    /// `peer` and `document`: with the command on its way to `peer` where
    /// the session is active; else with an error raised, and the peer not
    /// told: `DOCUMENT_NOT_FOUND` where there is no session,
    /// `INTERNAL_ERROR` where the session is not active.
    pub open spec fn addressed(self, peer: Seq<u8>, document: Seq<char>, command: CommandView)
        -> BehaviourView {
        match session_state_of(self.sessions, peer, document) {
            None => self.emit(local_error(peer, document, Reason::DOCUMENT_NOT_FOUND)),
            Some(state) => if is_active(state) {
                self.deliver(peer, command)
            } else {
                self.emit(local_error(peer, document, Reason::INTERNAL_ERROR))
            },
        }
    }

    /// The coordinator once the changes to `document` are on their way to
    /// the peer of each active session of `document`, from the session
    /// number `i` on, in the order of the sessions.
    pub open spec fn broadcast(self, document: Seq<char>, changes: Seq<u8>, i: int)
        -> BehaviourView
        decreases self.sessions.len() - i,
    {
        if i < 0 || i >= self.sessions.len() {
            self
        } else {
            let session = self.sessions[i];
            let next = if session.document_id == document && is_active(session.state) {
                self.deliver(
                    session.peer,
                    CommandView::SendChanges { document_id: document, changes, peer: session.peer },
                )
            } else {
                self
            };
            next.broadcast(document, changes, i + 1)
        }
    }

    /// The coordinator after a command of the application.
    pub open spec fn after_command(self, command: CommandView) -> BehaviourView {
        match command {
            CommandView::StartSync { document_id, peer } => self.start_sync(peer, document_id),
            CommandView::SendChanges { document_id, peer, .. } => self.addressed(
                peer,
                document_id,
                command,
            ),
            CommandView::RequestSync { document_id, peer } => self.addressed(
                peer,
                document_id,
                command,
            ),
            CommandView::BroadcastChanges { document_id, changes } => self.broadcast(
                document_id,
                changes,
                0,
            ),
        }
    }
}

impl Behaviour {
    /// Starts the sync of `document` with `peer`.
    fn start_sync(&mut self, document_id: String, peer: PeerIdentity)
        requires
            old(self).wf(),
        ensures
            final(self)@ == old(self)@.start_sync(peer@, document_id@),
            final(self).wf(),
    {
        match self.session_state(&peer, &document_id) {
            Some(SessionState::Requesting) | Some(SessionState::Syncing) => {},
            _ => {
                self.set_session(&peer, &document_id, SessionState::Requesting);
                let target = peer.duplicate();
                self.deliver(&target, Command::StartSync { document_id, peer });
            },
        }
    }

    /// Sends a command that needs an active session on its way, or raises
    /// the error.
    fn addressed(&mut self, peer: &PeerIdentity, document_id: &String, command: Command)
        requires
            old(self).wf(),
            command@.target() == Some(peer@),
        ensures
            final(self)@ == old(self)@.addressed(peer@, document_id@, command@),
            final(self).wf(),
    {
        match self.session_state(peer, document_id) {
            None => {
                self.emit(
                    Event::SyncError {
                        peer: peer.duplicate(),
                        document_id: document_id.clone(),
                        reason: Reason::DOCUMENT_NOT_FOUND,
                        error: String::new(),
                    },
                );
            },
            Some(SessionState::Requesting) | Some(SessionState::Syncing) => {
                self.deliver(peer, command);
            },
            Some(_) => {
                self.emit(
                    Event::SyncError {
                        peer: peer.duplicate(),
                        document_id: document_id.clone(),
                        reason: Reason::INTERNAL_ERROR,
                        error: String::new(),
                    },
                );
            },
        }
    }

    /// Sends the changes to `document` on their way to the peer of each
    /// active session of `document`.
    fn broadcast(&mut self, document_id: &String, changes: &Vec<u8>)
        requires
            old(self).wf(),
        ensures
            final(self)@ == old(self)@.broadcast(document_id@, changes@, 0),
            final(self).wf(),
    {
        let mut i: usize = 0;
        while i < self.active_syncs.len()
            invariant
                i <= self.active_syncs.len(),
                self.wf(),
                old(self)@.broadcast(document_id@, changes@, 0) == self@.broadcast(
                    document_id@,
                    changes@,
                    i as int,
                ),
            decreases self.active_syncs.len() - i,
        {
            let active = match self.active_syncs[i].state {
                SessionState::Requesting | SessionState::Syncing => true,
                _ => false,
            };
            if active && strings_equal(&self.active_syncs[i].document_id, document_id) {
                let peer = self.active_syncs[i].peer.duplicate();
                let command = Command::SendChanges {
                    document_id: document_id.clone(),
                    changes: copy_bytes(changes.as_slice()),
                    peer: peer.duplicate(),
                };
                proof {
                    lemma_deliver_keeps_wf(self@, peer@, command@);
                }
                self.deliver(&peer, command);
            }
            i += 1;
        }
    }

    /// Takes a command of the application. A start of sync is a no-op
    /// while the session is active, and else puts the session into
    /// `Requesting` and sends the command on its way. Changes for one peer
    /// and a request for sync need the active session, and raise an error
    /// without it. Changes for all go to the peer of each active session of
    /// the document.
    pub fn on_command(&mut self, command: Command)
        requires
            old(self).wf(),
        ensures
            final(self)@ == old(self)@.after_command(command@),
            final(self).wf(),
    {
        match command {
            Command::StartSync { document_id, peer } => {
                self.start_sync(document_id, peer);
            },
            Command::SendChanges { document_id, changes, peer } => {
                let target = peer.duplicate();
                let document = document_id.clone();
                self.addressed(
                    &target,
                    &document,
                    Command::SendChanges { document_id, changes, peer },
                );
            },
            Command::RequestSync { document_id, peer } => {
                let target = peer.duplicate();
                let document = document_id.clone();
                self.addressed(&target, &document, Command::RequestSync { document_id, peer });
            },
            Command::BroadcastChanges { document_id, changes } => {
                self.broadcast(&document_id, &changes);
            },
        }
    }
}

/// The predicate "waits for `peer`".
pub open spec fn waits_for(peer: Seq<u8>) -> spec_fn(CommandView) -> bool {
    |c: CommandView| c.target() == Some(peer)
}

/// The predicate "does not wait for `peer`".
pub open spec fn waits_for_another(peer: Seq<u8>) -> spec_fn(CommandView) -> bool {
    |c: CommandView| c.target() != Some(peer)
}

impl BehaviourView {
    /// The coordinator once every session with `peer`, from the session
    /// number `i` on, is `Errored` and an `INTERNAL_ERROR` is raised for
    /// each, in the order of the sessions.
    pub open spec fn fail_sessions(self, peer: Seq<u8>, i: int) -> BehaviourView
        decreases self.sessions.len() - i,
    {
        if i < 0 || i >= self.sessions.len() {
            self
        } else {
            let session = self.sessions[i];
            let next = if session.peer == peer {
                BehaviourView {
                    sessions: self.sessions.update(
                        i,
                        SyncSessionView { state: SessionState::Errored, ..session },
                    ),
                    events: self.events.push(
                        local_error(peer, session.document_id, Reason::INTERNAL_ERROR),
                    ),
                    ..self
                }
            } else {
                self
            };
            next.fail_sessions(peer, i + 1)
        }
    }

    /// The coordinator without the connection to `peer`.
    pub open spec fn drop_handler(self, peer: Seq<u8>) -> BehaviourView {
        let i = handler_position(self.handlers, peer);
        if i < self.handlers.len() {
            BehaviourView { handlers: self.handlers.remove(i), ..self }
        } else {
            self
        }
    }

    /// The coordinator after the connection to `peer` was closed: the
    /// handler is gone, and every session with `peer` is `Errored` with an
    /// `INTERNAL_ERROR` raised for it.
    pub open spec fn after_connection_closed(self, peer: Seq<u8>) -> BehaviourView {
        self.drop_handler(peer).fail_sessions(peer, 0)
    }

    /// The coordinator after a connection to `peer` was established: as it
    /// was where `peer` was connected already; else with a new handler that
    /// has accepted, in their order, the commands that waited for `peer`,
    /// which wait no longer.
    pub open spec fn after_connection_established(self, peer: Seq<u8>) -> BehaviourView {
        if is_connected(self.handlers, peer) {
            self
        } else {
            BehaviourView {
                handlers: self.handlers.push(
                    ConnectionView {
                        peer,
                        handler: handler_after_commands(
                            fresh_handler(),
                            self.pending.filter(waits_for(peer)),
                        ),
                    },
                ),
                pending: self.pending.filter(waits_for_another(peer)),
                ..self
            }
        }
    }
}

/// Filtering a sequence with one value more.
pub proof fn lemma_filter_push<T>(s: Seq<T>, x: T, pred: spec_fn(T) -> bool)
    ensures
        s.push(x).filter(pred) == (if pred(x) {
            s.filter(pred).push(x)
        } else {
            s.filter(pred)
        }),
{
    reveal(Seq::filter);
    assert(s.push(x).drop_last() =~= s);
}

/// A state put to `Errored` where it stands leaves the sessions distinct
/// and in their places.
pub proof fn lemma_fail_sessions_keeps_wf(b: BehaviourView, peer: Seq<u8>, i: int)
    requires
        b.wf(),
    ensures
        b.fail_sessions(peer, i).wf(),
        b.fail_sessions(peer, i).handlers == b.handlers,
        b.fail_sessions(peer, i).pending == b.pending,
        b.fail_sessions(peer, i).sessions.len() == b.sessions.len(),
    decreases b.sessions.len() - i,
{
    if 0 <= i < b.sessions.len() {
        let session = b.sessions[i];
        if session.peer == peer {
            let next = BehaviourView {
                sessions: b.sessions.update(
                    i,
                    SyncSessionView { state: SessionState::Errored, ..session },
                ),
                events: b.events.push(local_error(peer, session.document_id, Reason::INTERNAL_ERROR)),
                ..b
            };
            assert forall|x: int, y: int| 0 <= x < y < next.sessions.len() implies !(
            #[trigger] next.sessions[x].peer == #[trigger] next.sessions[y].peer
                && next.sessions[x].document_id == next.sessions[y].document_id) by {
                assert(!(b.sessions[x].peer == b.sessions[y].peer && b.sessions[x].document_id
                    == b.sessions[y].document_id));
            }
            assert forall|k: int| 0 <= k < next.pending.len() implies waits_for_absent_peer(
                next.handlers,
                #[trigger] next.pending[k],
            ) by {
                assert(waits_for_absent_peer(b.handlers, b.pending[k]));
            }
            lemma_fail_sessions_keeps_wf(next, peer, i + 1);
        } else {
            lemma_fail_sessions_keeps_wf(b, peer, i + 1);
        }
    }
}

/// Without the connection to a peer, that peer is not connected, and no
/// other peer is connected that was not before.
pub proof fn lemma_drop_handler_keeps_wf(b: BehaviourView, peer: Seq<u8>)
    requires
        b.wf(),
    ensures
        b.drop_handler(peer).wf(),
        !is_connected(b.drop_handler(peer).handlers, peer),
        forall|p: Seq<u8>|
            is_connected(b.drop_handler(peer).handlers, p) ==> is_connected(b.handlers, p),
{
    let after = b.drop_handler(peer);
    let i = handler_position(b.handlers, peer);
    lemma_first_index_is_first(b.handlers, connects(peer));
    assert forall|p: Seq<u8>| is_connected(after.handlers, p) implies is_connected(
        b.handlers,
        p,
    ) by {
        lemma_first_index_is_first(after.handlers, connects(p));
        lemma_first_index_is_first(b.handlers, connects(p));
        let j = handler_position(after.handlers, p);
        if i < b.handlers.len() {
            let orig = if j < i {
                j
            } else {
                j + 1
            };
            assert(after.handlers[j] == b.handlers[orig]);
            if !is_connected(b.handlers, p) {
                assert(!connects(p)(b.handlers[orig]));
            }
        }
    }
    if i < b.handlers.len() {
        assert forall|x: int, y: int| 0 <= x < y < after.handlers.len() implies
            #[trigger] after.handlers[x].peer != #[trigger] after.handlers[y].peer by {
            let ox = if x < i {
                x
            } else {
                x + 1
            };
            let oy = if y < i {
                y
            } else {
                y + 1
            };
            assert(b.handlers[ox].peer != b.handlers[oy].peer);
        }
        assert forall|k: int| 0 <= k < after.handlers.len() implies (
        #[trigger] after.handlers[k]).handler.events.len() == 0 by {
            let ok = if k < i {
                k
            } else {
                k + 1
            };
            assert(b.handlers[ok].handler.events.len() == 0);
        }
        lemma_first_index_is_first(after.handlers, connects(peer));
        let j = handler_position(after.handlers, peer);
        if j < after.handlers.len() {
            let oj = if j < i {
                j
            } else {
                j + 1
            };
            assert(after.handlers[j] == b.handlers[oj]);
            if oj < i {
                assert(b.handlers[oj].peer != b.handlers[i].peer);
            } else {
                assert(b.handlers[i].peer != b.handlers[oj].peer);
            }
        }
    }
    assert forall|k: int| 0 <= k < after.pending.len() implies waits_for_absent_peer(
        after.handlers,
        #[trigger] after.pending[k],
    ) by {
        assert(waits_for_absent_peer(b.handlers, b.pending[k]));
    }
}

impl Behaviour {
    /// Puts every session with `peer` into `Errored` and raises an
    /// `INTERNAL_ERROR` for each.
    fn fail_sessions(&mut self, peer: &PeerIdentity)
        requires
            old(self).wf(),
        ensures
            final(self)@ == old(self)@.fail_sessions(peer@, 0),
            final(self).wf(),
    {
        let mut i: usize = 0;
        while i < self.active_syncs.len()
            invariant
                i <= self.active_syncs.len(),
                self.wf(),
                old(self)@.fail_sessions(peer@, 0) == self@.fail_sessions(peer@, i as int),
            decreases self.active_syncs.len() - i,
        {
            if self.active_syncs[i].peer.same_as(peer) {
                let ghost before = self@;
                let document_id = self.active_syncs[i].document_id.clone();
                self.active_syncs[i].state = SessionState::Errored;
                self.queued_events.push_back(
                    Event::SyncError {
                        peer: peer.duplicate(),
                        document_id,
                        reason: Reason::INTERNAL_ERROR,
                        error: String::new(),
                    },
                );
                proof {
                    let session = before.sessions[i as int];
                    let next = BehaviourView {
                        sessions: before.sessions.update(
                            i as int,
                            SyncSessionView { state: SessionState::Errored, ..session },
                        ),
                        events: before.events.push(
                            local_error(peer@, session.document_id, Reason::INTERNAL_ERROR),
                        ),
                        ..before
                    };
                    assert(self@.sessions =~= next.sessions);
                    assert(self@.events =~= next.events);
                    assert(self@ == next);
                    lemma_fail_sessions_keeps_wf(before, peer@, i as int);
                    assert(before.fail_sessions(peer@, i as int) == next.fail_sessions(
                        peer@,
                        i + 1,
                    ));
                    lemma_fail_sessions_step_wf(before, peer@, i as int);
                }
            }
            i += 1;
        }
    }

    /// Takes note that the connection to `peer` was closed: drops the
    /// handler, puts every session with `peer` into `Errored`, and raises an
    /// `INTERNAL_ERROR` for each, so that the application does not wait for
    /// a peer that is gone.
    pub fn on_connection_closed(&mut self, peer: &PeerIdentity)
        requires
            old(self).wf(),
        ensures
            final(self)@ == old(self)@.after_connection_closed(peer@),
            final(self).wf(),
            !is_connected(final(self)@.handlers, peer@),
    {
        proof {
            lemma_drop_handler_keeps_wf(self@, peer@);
            lemma_fail_sessions_keeps_wf(self@.drop_handler(peer@), peer@, 0);
        }
        let i = self.find_handler(peer);
        if i < self.handlers.len() {
            self.handlers.remove(i);
            assert(self@.handlers =~= old(self)@.handlers.remove(i as int));
        }
        assert(self@ == old(self)@.drop_handler(peer@));
        self.fail_sessions(peer);
    }

    /// Takes note that a connection to `peer` was established: where
    /// `peer` had none, a handler is made for it, and the commands that
    /// waited for `peer` go into that handler in their order.
    pub fn on_connection_established(&mut self, peer: PeerIdentity)
        requires
            old(self).wf(),
        ensures
            final(self)@ == old(self)@.after_connection_established(peer@),
            final(self).wf(),
            is_connected(final(self)@.handlers, peer@),
    {
        if self.has_handler(&peer) {
            return ;
        }
        let ghost pending = self@.pending;
        let ghost handlers = self@.handlers;
        let mut handler = Handler::new();
        let mut kept: Vec<Command> = Vec::new();
        let mut i: usize = 0;
        proof {
            reveal(Seq::filter);
            assert(pending.take(0) =~= Seq::<CommandView>::empty());
        }
        while i < self.pending_commands.len()
            invariant
                i <= self.pending_commands.len(),
                self@ == old(self)@,
                self.wf(),
                pending == self@.pending,
                handlers == self@.handlers,
                !is_connected(handlers, peer@),
                handler@ == handler_after_commands(
                    fresh_handler(),
                    pending.take(i as int).filter(waits_for(peer@)),
                ),
                views(kept@) == pending.take(i as int).filter(waits_for_another(peer@)),
                forall|k: int|
                    0 <= k < kept.len() ==> waits_for_absent_peer(handlers, #[trigger] kept@[k]@)
                        && kept@[k]@.target() != Some(peer@),
            decreases self.pending_commands.len() - i,
        {
            let command = self.pending_commands[i].duplicate();
            proof {
                assert(pending[i as int] == command@);
                assert(waits_for_absent_peer(handlers, pending[i as int]));
                assert(pending.take(i + 1) =~= pending.take(i as int).push(command@));
                lemma_filter_push(pending.take(i as int), command@, waits_for(peer@));
                lemma_filter_push(pending.take(i as int), command@, waits_for_another(peer@));
            }
            let for_peer = match &command {
                Command::StartSync { peer: target, .. } => target.same_as(&peer),
                Command::SendChanges { peer: target, .. } => target.same_as(&peer),
                Command::RequestSync { peer: target, .. } => target.same_as(&peer),
                Command::BroadcastChanges { .. } => false,
            };
            assert(for_peer == waits_for(peer@)(command@));
            if for_peer {
                let ghost accepted = pending.take(i as int).filter(waits_for(peer@));
                handler.on_command(command);
                proof {
                    assert(accepted.push(command@).drop_last() =~= accepted);
                }
            } else {
                let ghost before = views(kept@);
                kept.push(command);
                assert(views(kept@) =~= before.push(command@));
            }
            i += 1;
        }
        proof {
            assert(pending.take(i as int) =~= pending);
            crate::handler::lemma_commands_wait_in_order(
                fresh_handler(),
                pending.filter(waits_for(peer@)),
            );
        }
        let ghost connection = ConnectionView { peer: peer@, handler: handler@ };
        self.pending_commands = kept;
        self.handlers.push(Connection { peer, handler });
        proof {
            assert(self@.handlers =~= handlers.push(connection));
            assert(self@ == old(self)@.after_connection_established(peer@));
            lemma_position_after_push(handlers, connection, peer@);
            assert forall|x: int, y: int| 0 <= x < y < self@.handlers.len() implies
                #[trigger] self@.handlers[x].peer != #[trigger] self@.handlers[y].peer by {
                if y < handlers.len() {
                    assert(handlers[x].peer != handlers[y].peer);
                } else {
                    lemma_first_index_is_first(handlers, connects(peer@));
                    assert(!connects(peer@)(handlers[x]));
                }
            }
            assert forall|k: int| 0 <= k < self@.handlers.len() implies (
            #[trigger] self@.handlers[k]).handler.events.len() == 0 by {
                if k < handlers.len() {
                    assert(handlers[k].handler.events.len() == 0);
                }
            }
            assert forall|k: int| 0 <= k < self@.pending.len() implies waits_for_absent_peer(
                self@.handlers,
                #[trigger] self@.pending[k],
            ) by {
                assert(self@.pending[k] == self.pending_commands@[k]@);
                assert(waits_for_absent_peer(handlers, self.pending_commands@[k]@));
                let p = self@.pending[k].target()->0;
                lemma_position_after_push(handlers, connection, p);
            }
        }
    }
}

/// One step of failing the sessions of a peer leaves the coordinator well
/// formed.
pub proof fn lemma_fail_sessions_step_wf(b: BehaviourView, peer: Seq<u8>, i: int)
    requires
        b.wf(),
        0 <= i < b.sessions.len(),
        b.sessions[i].peer == peer,
    ensures
        (BehaviourView {
            sessions: b.sessions.update(
                i,
                SyncSessionView { state: SessionState::Errored, ..b.sessions[i] },
            ),
            events: b.events.push(
                local_error(peer, b.sessions[i].document_id, Reason::INTERNAL_ERROR),
            ),
            ..b
        }).wf(),
{
    let next = BehaviourView {
        sessions: b.sessions.update(
            i,
            SyncSessionView { state: SessionState::Errored, ..b.sessions[i] },
        ),
        events: b.events.push(local_error(peer, b.sessions[i].document_id, Reason::INTERNAL_ERROR)),
        ..b
    };
    assert forall|x: int, y: int| 0 <= x < y < next.sessions.len() implies !(
    #[trigger] next.sessions[x].peer == #[trigger] next.sessions[y].peer
        && next.sessions[x].document_id == next.sessions[y].document_id) by {
        assert(!(b.sessions[x].peer == b.sessions[y].peer && b.sessions[x].document_id
            == b.sessions[y].document_id));
    }
    assert forall|k: int| 0 <= k < next.pending.len() implies waits_for_absent_peer(
        next.handlers,
        #[trigger] next.pending[k],
    ) by {
        assert(waits_for_absent_peer(b.handlers, b.pending[k]));
    }
}

/// The event that `peer` has news of a document.
pub open spec fn changed_at(peer: Seq<u8>) -> spec_fn(Seq<char>) -> EventView {
    |id: Seq<char>| EventView::DocumentChanged { peer, document_id: id }
}

/// The message that tells a peer of a failure about a document.
pub open spec fn error_reply(document: Seq<char>, reason: Reason) -> MessageView {
    MessageView::sync_error(
        DocumentSyncErrorView {
            id: document,
            reason: Some(SyncErrorReasonView { reason, details: Seq::empty() }),
        },
    )
}

/// The event that hands a peer's report of a failure to the application: an
/// absent reason reads as `UNKNOWN` without free text.
pub open spec fn reported_error(peer: Seq<u8>, e: DocumentSyncErrorView) -> EventView {
    EventView::SyncError {
        peer,
        document_id: e.id,
        reason: match e.reason {
            Some(r) => r.reason,
            None => Reason::UNKNOWN,
        },
        error: match e.reason {
            Some(r) => r.details,
            None => Seq::empty(),
        },
    }
}

impl BehaviourView {
    /// The coordinator after what came in from `peer` broke the protocol:
    /// the error is raised for the application, and the peer, if it is
    /// connected, is told.
    pub open spec fn protocol_error(self, peer: Seq<u8>, document: Seq<char>, reason: Reason)
        -> BehaviourView {
        self.emit(local_error(peer, document, reason)).reply(peer, error_reply(document, reason))
    }

    /// The coordinator after a round of sync for `document` came in from
    /// `peer`. Without a session the document is not known, which breaks
    /// the protocol with `DOCUMENT_NOT_FOUND`. A session in `Requesting`
    /// goes to `Syncing` and the application learns of the change; one in
    /// `Syncing` goes to `Synced` and the application learns of that. Any
    /// other session breaks the protocol with `INTERNAL_ERROR`.
    pub open spec fn after_sync_message(self, peer: Seq<u8>, document: Seq<char>)
        -> BehaviourView {
        match session_state_of(self.sessions, peer, document) {
            None => self.protocol_error(peer, document, Reason::DOCUMENT_NOT_FOUND),
            Some(SessionState::Requesting) => self.set_session(
                peer,
                document,
                SessionState::Syncing,
            ).emit(EventView::DocumentChanged { peer, document_id: document }),
            Some(SessionState::Syncing) => self.set_session(
                peer,
                document,
                SessionState::Synced,
            ).emit(EventView::DocumentSynced { peer, document_id: document }),
            Some(_) => self.protocol_error(peer, document, Reason::INTERNAL_ERROR),
        }
    }

    /// The coordinator after `peer` reported a failure: the session, if
    /// there is one, is `Errored`, and the report goes to the application.
    pub open spec fn after_sync_error(self, peer: Seq<u8>, e: DocumentSyncErrorView)
        -> BehaviourView {
        (if session_state_of(self.sessions, peer, e.id) is Some {
            self.set_session(peer, e.id, SessionState::Errored)
        } else {
            self
        }).emit(reported_error(peer, e))
    }

    /// The coordinator after a message came in from `peer`.
    pub open spec fn after_message(self, peer: Seq<u8>, message: MessageView) -> BehaviourView {
        match message {
            MessageView::sync_message(m) => self.after_sync_message(peer, m.id),
            MessageView::sync_error(e) => self.after_sync_error(peer, e),
            MessageView::available_documents(a) => BehaviourView {
                events: self.events + a.ids.map_values(changed_at(peer)),
                ..self
            },
            MessageView::request_available_documents => self,
            MessageView::request_document(r) => self.emit(
                EventView::SyncRequested { peer, document_id: r.id },
            ),
            MessageView::document(d) => self.emit(
                EventView::DocumentChanged { peer, document_id: d.id },
            ),
            MessageView::Empty => self.protocol_error(
                peer,
                Seq::empty(),
                Reason::INVALID_MESSAGE,
            ),
        }
    }

    /// The coordinator after the handler of the connection to `peer`
    /// reported `event`: a message is routed; bytes that are no message
    /// break the protocol with `INVALID_MESSAGE`; a failed negotiation fails
    /// every session with `peer`, and the connection stays.
    pub open spec fn after_handler_event(self, peer: Seq<u8>, event: HandlerEventView)
        -> BehaviourView {
        match event {
            HandlerEventView::Received(m) => self.after_message(peer, m),
            HandlerEventView::Invalid(_) => self.protocol_error(
                peer,
                Seq::empty(),
                Reason::INVALID_MESSAGE,
            ),
            HandlerEventView::NegotiationFailed => self.fail_sessions(peer, 0),
        }
    }

    /// The coordinator with `handler` as the handler of the connection
    /// number `i`.
    pub open spec fn put_handler(self, i: int, handler: HandlerView) -> BehaviourView {
        BehaviourView {
            handlers: self.handlers.update(i, ConnectionView { handler, ..self.handlers[i] }),
            ..self
        }
    }

    /// The coordinator once the handler of the connection number `i`, to
    /// `peer`, has become `handler`: a report that waits in it is taken off
    /// at once and routed.
    pub open spec fn absorb(self, peer: Seq<u8>, i: int, handler: HandlerView) -> BehaviourView {
        if handler.events.len() > 0 {
            self.put_handler(i, handler_after_poll(handler)).after_handler_event(
                peer,
                handler.events[0],
            )
        } else {
            self.put_handler(i, handler)
        }
    }

    /// The coordinator after the engine said `event` of the connection to
    /// `peer`; as it was where `peer` is not connected.
    pub open spec fn after_connection_event(self, peer: Seq<u8>, event: ConnectionEvent)
        -> BehaviourView {
        let i = handler_position(self.handlers, peer);
        if i < self.handlers.len() {
            self.absorb(peer, i, handler_after_connection_event(self.handlers[i].handler, event))
        } else {
            self
        }
    }

    /// The coordinator after the bytes of one message came in from `peer`;
    /// as it was where `peer` is not connected.
    pub open spec fn after_bytes(self, peer: Seq<u8>, bytes: Seq<u8>) -> BehaviourView {
        let i = handler_position(self.handlers, peer);
        if i < self.handlers.len() {
            self.absorb(peer, i, handler_after_bytes(self.handlers[i].handler, bytes))
        } else {
            self
        }
    }

    /// Where the first connection with work for its stream stands; the
    /// count of connections where none has any.
    pub open spec fn first_ready(self) -> int {
        first_index(self.handlers, has_work())
    }

    /// What a poll hands out: the oldest event that waits for the
    /// application; else what the first connection with work asks for; else
    /// nothing.
    pub open spec fn poll_answer(self) -> Option<ToSwarmView> {
        if self.events.len() > 0 {
            Some(ToSwarmView::GenerateEvent(self.events[0]))
        } else {
            let i = self.first_ready();
            if i < self.handlers.len() {
                match handler_poll_answer(self.handlers[i].handler) {
                    ConnectionHandlerEventView::OutboundSubstreamRequest => Some(
                        ToSwarmView::OpenStream { peer_id: self.handlers[i].peer },
                    ),
                    ConnectionHandlerEventView::Write(bytes) => Some(
                        ToSwarmView::Write { peer_id: self.handlers[i].peer, bytes },
                    ),
                    _ => None,
                }
            } else {
                None
            }
        }
    }

    /// The coordinator after a poll: what was handed out waits no longer.
    pub open spec fn after_poll(self) -> BehaviourView {
        if self.events.len() > 0 {
            BehaviourView { events: self.events.drop_first(), ..self }
        } else {
            let i = self.first_ready();
            if i < self.handlers.len() {
                self.put_handler(i, handler_after_poll(self.handlers[i].handler))
            } else {
                self
            }
        }
    }
}

/// A handler without waiting reports, put in the place of another, leaves
/// the coordinator well formed and every peer as connected as it was.
pub proof fn lemma_put_handler_keeps_wf(b: BehaviourView, i: int, handler: HandlerView)
    requires
        b.wf(),
        0 <= i < b.handlers.len(),
        handler.events.len() == 0,
    ensures
        b.put_handler(i, handler).wf(),
        forall|p: Seq<u8>|
            handler_position(b.put_handler(i, handler).handlers, p) == handler_position(
                b.handlers,
                p,
            ),
{
    let after = b.put_handler(i, handler);
    let c = ConnectionView { handler, ..b.handlers[i] };
    assert forall|p: Seq<u8>|
        handler_position(after.handlers, p) == handler_position(b.handlers, p) by {
        lemma_position_after_update(b.handlers, i, c, p);
    }
    assert forall|x: int, y: int| 0 <= x < y < after.handlers.len() implies
        #[trigger] after.handlers[x].peer != #[trigger] after.handlers[y].peer by {
        assert(b.handlers[x].peer != b.handlers[y].peer);
    }
    assert forall|k: int| 0 <= k < after.handlers.len() implies (
    #[trigger] after.handlers[k]).handler.events.len() == 0 by {
        if k != i {
            assert(b.handlers[k].handler.events.len() == 0);
        }
    }
    assert forall|k: int| 0 <= k < after.pending.len() implies waits_for_absent_peer(
        after.handlers,
        #[trigger] after.pending[k],
    ) by {
        assert(waits_for_absent_peer(b.handlers, b.pending[k]));
    }
}

/// Events more leave the coordinator well formed.
pub proof fn lemma_events_keep_wf(b: BehaviourView, events: Seq<EventView>)
    requires
        b.wf(),
    ensures
        (BehaviourView { events, ..b }).wf(),
{
    let after = BehaviourView { events, ..b };
    assert forall|k: int| 0 <= k < after.pending.len() implies waits_for_absent_peer(
        after.handlers,
        #[trigger] after.pending[k],
    ) by {
        assert(waits_for_absent_peer(b.handlers, b.pending[k]));
    }
}

impl Behaviour {
    /// Raises the error for the application and tells the peer.
    fn protocol_error(&mut self, peer: &PeerIdentity, document_id: String, reason: Reason)
        requires
            old(self).wf(),
        ensures
            final(self)@ == old(self)@.protocol_error(peer@, document_id@, reason),
            final(self).wf(),
    {
        self.emit(
            Event::SyncError {
                peer: peer.duplicate(),
                document_id: document_id.clone(),
                reason,
                error: String::new(),
            },
        );
        self.reply(
            peer,
            Message {
                msg: OneOfmsg::sync_error(
                    DocumentSyncError {
                        id: document_id,
                        reason: Some(SyncErrorReason { reason, details: String::new() }),
                    },
                ),
            },
        );
    }

    /// Routes a round of sync that came in.
    fn on_sync_message(&mut self, peer: &PeerIdentity, document_id: String)
        requires
            old(self).wf(),
        ensures
            final(self)@ == old(self)@.after_sync_message(peer@, document_id@),
            final(self).wf(),
    {
        match self.session_state(peer, &document_id) {
            None => {
                self.protocol_error(peer, document_id, Reason::DOCUMENT_NOT_FOUND);
            },
            Some(SessionState::Requesting) => {
                self.set_session(peer, &document_id, SessionState::Syncing);
                self.emit(Event::DocumentChanged { peer: peer.duplicate(), document_id });
            },
            Some(SessionState::Syncing) => {
                self.set_session(peer, &document_id, SessionState::Synced);
                self.emit(Event::DocumentSynced { peer: peer.duplicate(), document_id });
            },
            Some(_) => {
                self.protocol_error(peer, document_id, Reason::INTERNAL_ERROR);
            },
        }
    }

    /// Routes a peer's report of a failure.
    fn on_sync_error(&mut self, peer: &PeerIdentity, report: DocumentSyncError)
        requires
            old(self).wf(),
        ensures
            final(self)@ == old(self)@.after_sync_error(peer@, report@),
            final(self).wf(),
    {
        if self.session_state(peer, &report.id).is_some() {
            self.set_session(peer, &report.id, SessionState::Errored);
        }
        let DocumentSyncError { id, reason } = report;
        let event = match reason {
            Some(r) => Event::SyncError {
                peer: peer.duplicate(),
                document_id: id,
                reason: r.reason,
                error: r.details,
            },
            None => Event::SyncError {
                peer: peer.duplicate(),
                document_id: id,
                reason: Reason::UNKNOWN,
                error: String::new(),
            },
        };
        self.emit(event);
    }

    /// Tells the application of each document that a peer has.
    fn on_available_documents(&mut self, peer: &PeerIdentity, ids: &Vec<String>)
        requires
            old(self).wf(),
        ensures
            final(self)@ == (BehaviourView {
                events: old(self)@.events + ids.deep_view().map_values(changed_at(peer@)),
                ..old(self)@
            }),
            final(self).wf(),
    {
        let ghost all = ids.deep_view();
        let mut i: usize = 0;
        proof {
            assert(old(self)@.events + all.take(0).map_values(changed_at(peer@))
                =~= old(self)@.events);
        }
        while i < ids.len()
            invariant
                i <= ids.len(),
                all == ids.deep_view(),
                self.wf(),
                self@ == (BehaviourView {
                    events: old(self)@.events + all.take(i as int).map_values(changed_at(peer@)),
                    ..old(self)@
                }),
            decreases ids.len() - i,
        {
            let ghost before = self@;
            self.emit(Event::DocumentChanged { peer: peer.duplicate(), document_id: ids[i].clone() });
            proof {
                assert(all[i as int] == ids[i as int]@);
                assert(all.take(i + 1) =~= all.take(i as int).push(all[i as int]));
                assert(self@.events =~= old(self)@.events + all.take(i + 1).map_values(
                    changed_at(peer@),
                ));
            }
            i += 1;
        }
        assert(all.take(i as int) =~= all);
    }

    /// Takes what the handler of the connection to `peer_id` reports. A
    /// round of sync moves the session on; a report of failure fails it;
    /// the other messages go to the application as events; bytes that are
    /// no message, and an envelope that holds none, break the protocol with
    /// `INVALID_MESSAGE`, which is raised for the application and told to
    /// the peer; a failed negotiation fails every session with the peer.
    pub fn on_connection_handler_event(&mut self, peer_id: PeerIdentity, event: HandlerEvent)
        requires
            old(self).wf(),
        ensures
            final(self)@ == old(self)@.after_handler_event(peer_id@, event@),
            final(self).wf(),
    {
        match event {
            HandlerEvent::Received(message) => match message.msg {
                OneOfmsg::sync_message(m) => {
                    self.on_sync_message(&peer_id, m.id);
                },
                OneOfmsg::sync_error(e) => {
                    self.on_sync_error(&peer_id, e);
                },
                OneOfmsg::available_documents(a) => {
                    self.on_available_documents(&peer_id, &a.ids);
                },
                OneOfmsg::request_available_documents(_) => {},
                OneOfmsg::request_document(r) => {
                    self.emit(Event::SyncRequested { peer: peer_id, document_id: r.id });
                },
                OneOfmsg::document(d) => {
                    self.emit(Event::DocumentChanged { peer: peer_id, document_id: d.id });
                },
                OneOfmsg::Empty => {
                    self.protocol_error(&peer_id, String::new(), Reason::INVALID_MESSAGE);
                },
            },
            HandlerEvent::Invalid(_) => {
                self.protocol_error(&peer_id, String::new(), Reason::INVALID_MESSAGE);
            },
            HandlerEvent::NegotiationFailed => {
                self.fail_sessions(&peer_id);
            },
        }
    }

    /// Takes the report, if any, off the handler of the connection number
    /// `i` and routes it.
    fn absorb(&mut self, peer: &PeerIdentity, i: usize, Ghost(before): Ghost<BehaviourView>, Ghost(
        handler,
    ): Ghost<HandlerView>)
        requires
            before.wf(),
            0 <= i < before.handlers.len(),
            before.handlers[i as int].peer == peer@,
            handler.events.len() <= 1,
            old(self)@ == before.put_handler(i as int, handler),
        ensures
            final(self)@ == before.absorb(peer@, i as int, handler),
            final(self).wf(),
    {
        proof {
            lemma_put_handler_keeps_wf(before, i as int, handler_after_poll(handler));
            if handler.events.len() == 0 {
                lemma_put_handler_keeps_wf(before, i as int, handler);
            }
        }
        assert(self@.handlers.len() == self.handlers@.len());
        assert(self@.handlers[i as int] == self.handlers@[i as int]@);
        if self.handlers[i].handler.pending_events.len() > 0 {
            let answer = self.handlers[i].handler.poll();
            proof {
                let polled = ConnectionView {
                    handler: handler_after_poll(handler),
                    ..before.handlers[i as int]
                };
                assert(old(self)@.handlers[i as int].handler == handler);
                assert(self@.handlers =~= old(self)@.handlers.update(i as int, polled));
                assert(old(self)@.handlers.update(i as int, polled) =~= before.handlers.update(
                    i as int,
                    polled,
                ));
            }
            match answer {
                ConnectionHandlerEvent::NotifyBehaviour(report) => {
                    self.on_connection_handler_event(peer.duplicate(), report);
                },
                _ => {},
            }
        }
    }

    /// Takes what the engine says of the connection to `peer`: the handler
    /// takes note, and a failed negotiation that it reports is routed at
    /// once. Nothing happens where `peer` is not connected.
    pub fn on_connection_event(&mut self, peer: &PeerIdentity, event: ConnectionEvent)
        requires
            old(self).wf(),
        ensures
            final(self)@ == old(self)@.after_connection_event(peer@, event),
            final(self).wf(),
    {
        let i = self.find_handler(peer);
        if i < self.handlers.len() {
            proof {
                lemma_first_index_is_first(self@.handlers, connects(peer@));
            }
            let ghost handler = handler_after_connection_event(
                self@.handlers[i as int].handler,
                event,
            );
            self.handlers[i].handler.on_connection_event(event);
            assert(self@.handlers =~= old(self)@.put_handler(i as int, handler).handlers);
            self.absorb(peer, i, Ghost(old(self)@), Ghost(handler));
        }
    }

    /// Takes the bytes of one message that came in from `peer`: the handler
    /// reads them, and what it reports is routed at once. Nothing happens
    /// where `peer` is not connected.
    pub fn on_bytes_received(&mut self, peer: &PeerIdentity, bytes: &[u8])
        requires
            old(self).wf(),
        ensures
            final(self)@ == old(self)@.after_bytes(peer@, bytes@),
            final(self).wf(),
    {
        let i = self.find_handler(peer);
        if i < self.handlers.len() {
            proof {
                lemma_first_index_is_first(self@.handlers, connects(peer@));
            }
            let ghost handler = handler_after_bytes(self@.handlers[i as int].handler, bytes@);
            self.handlers[i].handler.on_bytes_received(bytes);
            assert(self@.handlers =~= old(self)@.put_handler(i as int, handler).handlers);
            self.absorb(peer, i, Ghost(old(self)@), Ghost(handler));
        }
    }

    /// Finds the first connection with work for its stream.
    fn find_ready(&self) -> (r: usize)
        ensures
            r == self@.first_ready(),
            r <= self@.handlers.len(),
    {
        let mut i: usize = 0;
        while i < self.handlers.len()
            invariant
                i <= self.handlers.len(),
                forall|k: int| 0 <= k < i ==> !has_work()(#[trigger] self@.handlers[k]),
            decreases self.handlers.len() - i,
        {
            if self.handlers[i].handler.has_work() {
                proof {
                    lemma_first_index_found(self@.handlers, has_work(), i as int);
                }
                return i;
            }
            i += 1;
        }
        proof {
            lemma_first_index_found(self@.handlers, has_work(), i as int);
        }
        i
    }

    /// Hands out the next piece of work, or `None` where there is none for
    /// now: the oldest event that waits for the application, else what the
    /// first connection with work for its stream asks for. Never waits.
    pub fn poll(&mut self) -> (r: Option<ToSwarm>)
        requires
            old(self).wf(),
        ensures
            match old(self)@.poll_answer() {
                Some(work) => r matches Some(w) && w@ == work,
                None => r is None,
            },
            final(self)@ == old(self)@.after_poll(),
            final(self).wf(),
    {
        if self.queued_events.len() > 0 {
            let event = self.queued_events.pop_front();
            proof {
                assert(self@.events =~= old(self)@.events.drop_first());
                lemma_events_keep_wf(old(self)@, old(self)@.events.drop_first());
            }
            return match event {
                Some(e) => Some(ToSwarm::GenerateEvent(e)),
                None => None,
            };
        }
        let i = self.find_ready();
        if i >= self.handlers.len() {
            return None;
        }
        proof {
            lemma_put_handler_keeps_wf(
                self@,
                i as int,
                handler_after_poll(self@.handlers[i as int].handler),
            );
        }
        let answer = self.handlers[i].handler.poll();
        assert(self@.handlers =~= old(self)@.put_handler(
            i as int,
            handler_after_poll(old(self)@.handlers[i as int].handler),
        ).handlers);
        match answer {
            ConnectionHandlerEvent::OutboundSubstreamRequest => Some(
                ToSwarm::OpenStream { peer_id: self.handlers[i].peer.duplicate() },
            ),
            ConnectionHandlerEvent::Write(bytes) => Some(
                ToSwarm::Write { peer_id: self.handlers[i].peer.duplicate(), bytes },
            ),
            _ => None,
        }
    }

    /// A connection that the peer opened is a connection.
    pub fn handle_established_inbound_connection(&mut self, peer: PeerIdentity)
        requires
            old(self).wf(),
        ensures
            final(self)@ == old(self)@.after_connection_established(peer@),
            final(self).wf(),
    {
        self.on_connection_established(peer);
    }

    /// A connection that this node opened is a connection.
    pub fn handle_established_outbound_connection(&mut self, peer: PeerIdentity)
        requires
            old(self).wf(),
        ensures
            final(self)@ == old(self)@.after_connection_established(peer@),
            final(self).wf(),
    {
        self.on_connection_established(peer);
    }

    /// Takes what the engine says about connections.
    pub fn on_swarm_event(&mut self, event: FromSwarm)
        requires
            old(self).wf(),
        ensures
            final(self)@ == (match event {
                FromSwarm::ConnectionEstablished { peer_id } =>
                    old(self)@.after_connection_established(peer_id@),
                FromSwarm::ConnectionClosed { peer_id } => old(self)@.after_connection_closed(
                    peer_id@,
                ),
                FromSwarm::Other => old(self)@,
            }),
            final(self).wf(),
    {
        match event {
            FromSwarm::ConnectionEstablished { peer_id } => {
                self.on_connection_established(peer_id);
            },
            FromSwarm::ConnectionClosed { peer_id } => {
                self.on_connection_closed(&peer_id);
            },
            FromSwarm::Other => {},
        }
    }
}

impl Behaviour {
    /// Whether no session before the session number `j` is of the same
    /// peer and document as that one.
    fn session_is_new(&self, j: usize) -> (r: bool)
        requires
            j < self@.sessions.len(),
        ensures
            r == (forall|i: int|
                0 <= i < j ==> !(#[trigger] self@.sessions[i].peer == self@.sessions[j as int].peer
                    && self@.sessions[i].document_id == self@.sessions[j as int].document_id)),
    {
        let mut i: usize = 0;
        while i < j
            invariant
                i <= j < self.active_syncs.len(),
                forall|k: int|
                    0 <= k < i ==> !(#[trigger] self@.sessions[k].peer == self@.sessions[j as int].peer
                        && self@.sessions[k].document_id == self@.sessions[j as int].document_id),
            decreases j - i,
        {
            if self.active_syncs[i].peer.same_as(&self.active_syncs[j].peer) && strings_equal(
                &self.active_syncs[i].document_id,
                &self.active_syncs[j].document_id,
            ) {
                assert(self@.sessions[i as int].peer == self@.sessions[j as int].peer);
                return false;
            }
            i += 1;
        }
        true
    }

    /// Whether no connection before the connection number `j` is to the
    /// same peer as that one.
    fn connection_is_new(&self, j: usize) -> (r: bool)
        requires
            j < self@.handlers.len(),
        ensures
            r == (forall|i: int|
                0 <= i < j ==> #[trigger] self@.handlers[i].peer != self@.handlers[j as int].peer),
    {
        let mut i: usize = 0;
        while i < j
            invariant
                i <= j < self.handlers.len(),
                forall|k: int|
                    0 <= k < i ==> #[trigger] self@.handlers[k].peer != self@.handlers[j as int].peer,
            decreases j - i,
        {
            if self.handlers[i].peer.same_as(&self.handlers[j].peer) {
                assert(self@.handlers[i as int].peer == self@.handlers[j as int].peer);
                return false;
            }
            i += 1;
        }
        true
    }

    /// Whether the sessions are distinct.
    fn sessions_are_distinct(&self) -> (r: bool)
        ensures
            r == sessions_distinct(self@.sessions),
    {
        let mut j: usize = 0;
        while j < self.active_syncs.len()
            invariant
                j <= self.active_syncs.len(),
                forall|a: int, b: int|
                    0 <= a < b < j ==> !(#[trigger] self@.sessions[a].peer
                        == #[trigger] self@.sessions[b].peer && self@.sessions[a].document_id
                        == self@.sessions[b].document_id),
            decreases self.active_syncs.len() - j,
        {
            if !self.session_is_new(j) {
                return false;
            }
            j += 1;
        }
        true
    }

    /// Whether the connections are distinct and no report waits in a
    /// handler.
    fn connections_are_settled(&self) -> (r: bool)
        ensures
            r == (handlers_distinct(self@.handlers) && forall|i: int|
                0 <= i < self@.handlers.len() ==> (#[trigger] self@.handlers[i]).handler.events.len()
                    == 0),
    {
        let mut j: usize = 0;
        while j < self.handlers.len()
            invariant
                j <= self.handlers.len(),
                forall|a: int, b: int|
                    0 <= a < b < j ==> #[trigger] self@.handlers[a].peer
                        != #[trigger] self@.handlers[b].peer,
                forall|i: int|
                    0 <= i < j ==> (#[trigger] self@.handlers[i]).handler.events.len() == 0,
            decreases self.handlers.len() - j,
        {
            if !self.connection_is_new(j) {
                return false;
            }
            if self.handlers[j].handler.pending_events.len() > 0 {
                assert(self@.handlers[j as int].handler.events.len() > 0);
                return false;
            }
            j += 1;
        }
        true
    }

    /// Whether every command that waits names a peer that is not
    /// connected.
    fn pending_wait_for_absent_peers(&self) -> (r: bool)
        ensures
            r == (forall|k: int|
                0 <= k < self@.pending.len() ==> waits_for_absent_peer(
                    self@.handlers,
                    #[trigger] self@.pending[k],
                )),
    {
        let mut k: usize = 0;
        while k < self.pending_commands.len()
            invariant
                k <= self.pending_commands.len(),
                forall|i: int|
                    0 <= i < k ==> waits_for_absent_peer(
                        self@.handlers,
                        #[trigger] self@.pending[i],
                    ),
            decreases self.pending_commands.len() - k,
        {
            let absent = match &self.pending_commands[k] {
                Command::StartSync { peer, .. } => !self.has_handler(peer),
                Command::SendChanges { peer, .. } => !self.has_handler(peer),
                Command::RequestSync { peer, .. } => !self.has_handler(peer),
                Command::BroadcastChanges { .. } => false,
            };
            assert(absent == waits_for_absent_peer(self@.handlers, self@.pending[k as int]));
            if !absent {
                return false;
            }
            k += 1;
        }
        true
    }

    /// Checks at run time what holds of a coordinator at rest.
    pub fn is_well_formed(&self) -> (r: bool)
        ensures
            r == self.wf(),
    {
        self.sessions_are_distinct() && self.connections_are_settled()
            && self.pending_wait_for_absent_peers()
    }
}

} // verus!
