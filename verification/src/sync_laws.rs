//! What holds of the coordinator of the sync protocol over all its states.

use crate::behaviour::{
    BehaviourView, ConnectionView, EventView, SessionState, SyncSessionView, changed_at,
    connects, error_reply, handler_position, is_active, is_connected, is_session_of,
    lemma_deliver_keeps_wf, lemma_drop_handler_keeps_wf, lemma_emit_keeps_wf,
    lemma_events_keep_wf, lemma_fail_sessions_keeps_wf, lemma_first_index_is_first,
    lemma_reply_keeps_wf, lemma_set_session_keeps_distinct, lemma_set_session_keeps_wf,
    local_error, reported_error, session_position, session_state_of, waits_for,
    waits_for_another,
};
use crate::handler::{
    CommandView, HandlerEventView, HandlerState, fresh_handler, handler_after_send,
    lemma_commands_wait_in_order, wire_message_of,
};
use crate::messages::{DocumentSyncMessageView, MessageView, Reason};
use vstd::prelude::*;

verus! {

/// Session uniqueness: once the sync of a document with a peer was started,
/// there is exactly one session of that peer and document, and it is
/// active; starting it a second time changes nothing at all.
pub proof fn lemma_start_sync_is_idempotent(b: BehaviourView, peer: Seq<u8>, document: Seq<char>)
    requires
        b.wf(),
    ensures
        ({
            let once = b.start_sync(peer, document);
            let i = session_position(once.sessions, peer, document);
            &&& once.wf()
            &&& 0 <= i < once.sessions.len()
            &&& is_active(once.sessions[i].state)
            &&& forall|j: int|
                0 <= j < once.sessions.len() && is_session_of(peer, document)(
                    #[trigger] once.sessions[j],
                ) ==> j == i
            &&& once.start_sync(peer, document) == once
        }),
{
    let once = b.start_sync(peer, document);
    let state = session_state_of(b.sessions, peer, document);
    lemma_first_index_is_first(b.sessions, is_session_of(peer, document));
    if !(state is Some && is_active(state->0)) {
        let marked = b.set_session(peer, document, SessionState::Requesting);
        lemma_set_session_keeps_wf(b, peer, document, SessionState::Requesting);
        lemma_set_session_keeps_distinct(b.sessions, peer, document, SessionState::Requesting);
        lemma_deliver_keeps_wf(
            marked,
            peer,
            CommandView::StartSync { document_id: document, peer },
        );
    }
    lemma_first_index_is_first(once.sessions, is_session_of(peer, document));
    let i = session_position(once.sessions, peer, document);
    assert forall|j: int|
        0 <= j < once.sessions.len() && is_session_of(peer, document)(
            #[trigger] once.sessions[j],
        ) implies j == i by {
        if j < i {
            assert(!is_session_of(peer, document)(once.sessions[j]));
        } else if j > i {
            assert(!(once.sessions[i].peer == once.sessions[j].peer && once.sessions[i].document_id
                == once.sessions[j].document_id));
        }
    }
}

/// The session as it is once its peer is lost.
pub open spec fn errored_for(peer: Seq<u8>) -> spec_fn(SyncSessionView) -> SyncSessionView {
    |s: SyncSessionView|
        if s.peer == peer {
            SyncSessionView { state: SessionState::Errored, ..s }
        } else {
            s
        }
}

/// The predicate "is a session with `peer`".
pub open spec fn is_with(peer: Seq<u8>) -> spec_fn(SyncSessionView) -> bool {
    |s: SyncSessionView| s.peer == peer
}

/// The error that is raised for a session whose peer is lost.
pub open spec fn failure_of() -> spec_fn(SyncSessionView) -> EventView {
    |s: SyncSessionView| local_error(s.peer, s.document_id, Reason::INTERNAL_ERROR)
}

/// Failing the sessions with a peer from the session number `i` on puts
/// each of them into `Errored` and raises one `INTERNAL_ERROR` for each, in
/// their order, and does nothing else.
pub proof fn lemma_fail_sessions_from(b: BehaviourView, peer: Seq<u8>, i: int)
    requires
        0 <= i <= b.sessions.len(),
    ensures
        b.fail_sessions(peer, i) == (BehaviourView {
            sessions: b.sessions.take(i) + b.sessions.skip(i).map_values(errored_for(peer)),
            events: b.events + b.sessions.skip(i).filter(is_with(peer)).map_values(failure_of()),
            ..b
        }),
    decreases b.sessions.len() - i,
{
    let with_peer = is_with(peer);
    let tail = b.sessions.skip(i);
    if i == b.sessions.len() {
        reveal(Seq::filter);
        assert(tail =~= Seq::<SyncSessionView>::empty());
        assert(b.sessions.take(i) + tail.map_values(errored_for(peer)) =~= b.sessions);
        assert(b.events + tail.filter(with_peer).map_values(failure_of()) =~= b.events);
    } else {
        let session = b.sessions[i];
        let next = if session.peer == peer {
            BehaviourView {
                sessions: b.sessions.update(
                    i,
                    SyncSessionView { state: SessionState::Errored, ..session },
                ),
                events: b.events.push(local_error(peer, session.document_id, Reason::INTERNAL_ERROR)),
                ..b
            }
        } else {
            b
        };
        lemma_fail_sessions_from(next, peer, i + 1);
        let after = b.sessions.skip(i + 1);
        assert(next.sessions.skip(i + 1) =~= after);
        assert(tail =~= seq![session] + after);
        Seq::filter_distributes_over_add(seq![session], after, with_peer);
        assert(seq![session].filter(with_peer) =~= (if session.peer == peer {
            seq![session]
        } else {
            Seq::<SyncSessionView>::empty()
        })) by {
            reveal(Seq::filter);
            assert(seq![session].drop_last() =~= Seq::<SyncSessionView>::empty());
            assert(seq![session].drop_last().filter(with_peer) =~= Seq::<
                SyncSessionView,
            >::empty());
        }
        assert(next.sessions.take(i + 1) + after.map_values(errored_for(peer))
            =~= b.sessions.take(i) + tail.map_values(errored_for(peer)));
        assert(next.events + after.filter(with_peer).map_values(failure_of()) =~= b.events
            + tail.filter(with_peer).map_values(failure_of()));
    }
}

/// What the loss of a connection does: the handler of the peer is gone,
/// every session with the peer is `Errored` and every other session as it
/// was, one `INTERNAL_ERROR` is raised for each session with the peer, in
/// their order, and the commands that wait stay.
pub proof fn lemma_connection_closed(b: BehaviourView, peer: Seq<u8>)
    requires
        b.wf(),
    ensures
        ({
            let after = b.after_connection_closed(peer);
            &&& after.wf()
            &&& !is_connected(after.handlers, peer)
            &&& after.sessions == b.sessions.map_values(errored_for(peer))
            &&& after.events == b.events + b.sessions.filter(is_with(peer)).map_values(
                failure_of(),
            )
            &&& after.pending == b.pending
        }),
{
    lemma_drop_handler_keeps_wf(b, peer);
    let dropped = b.drop_handler(peer);
    lemma_fail_sessions_keeps_wf(dropped, peer, 0);
    lemma_fail_sessions_from(dropped, peer, 0);
    assert(b.sessions.skip(0) =~= b.sessions);
    assert(b.sessions.take(0) + b.sessions.map_values(errored_for(peer))
        =~= b.sessions.map_values(errored_for(peer)));
}

/// A connection takes up what waited for it: the new handler is idle and
/// holds, in their order, the messages of the commands that waited for the
/// peer, and no command waits for the peer any longer.
pub proof fn lemma_connection_takes_up_waiting_commands(b: BehaviourView, peer: Seq<u8>)
    requires
        !is_connected(b.handlers, peer),
    ensures
        ({
            let after = b.after_connection_established(peer);
            let connection = after.handlers.last();
            &&& after.handlers.len() == b.handlers.len() + 1
            &&& connection.peer == peer
            &&& connection.handler.state == HandlerState::Idle
            &&& connection.handler.events.len() == 0
            &&& connection.handler.outbound == b.pending.filter(waits_for(peer)).map_values(
                |c: CommandView| wire_message_of(c),
            )
            &&& forall|k: int|
                0 <= k < after.pending.len() ==> (#[trigger] after.pending[k]).target() != Some(
                    peer,
                )
        }),
{
    let after = b.after_connection_established(peer);
    lemma_commands_wait_in_order(fresh_handler(), b.pending.filter(waits_for(peer)));
    assert(Seq::<MessageView>::empty() + b.pending.filter(waits_for(peer)).map_values(
        |c: CommandView| wire_message_of(c),
    ) =~= b.pending.filter(waits_for(peer)).map_values(
        |c: CommandView| wire_message_of(c),
    ));
    assert forall|k: int| 0 <= k < after.pending.len() implies (
    #[trigger] after.pending[k]).target() != Some(peer) by {
        b.pending.lemma_filter_pred(waits_for_another(peer), k);
    }
}

/// Whether `peer` has an active session of `document` among the sessions
/// from number `i` on.
pub open spec fn syncs_from(
    sessions: Seq<SyncSessionView>,
    peer: Seq<u8>,
    document: Seq<char>,
    i: int,
) -> bool {
    exists|k: int|
        0 <= i <= k < sessions.len() && is_active_session_of(
            #[trigger] sessions[k],
            peer,
            document,
        )
}

/// Whether `session` is an active session of `peer` and `document`.
pub open spec fn is_active_session_of(
    session: SyncSessionView,
    peer: Seq<u8>,
    document: Seq<char>,
) -> bool {
    session.peer == peer && session.document_id == document && is_active(session.state)
}

/// The message that carries changes to a document.
pub open spec fn changes_message(document: Seq<char>, changes: Seq<u8>) -> MessageView {
    MessageView::sync_message(
        DocumentSyncMessageView { id: document, message: changes },
    )
}

/// The connection as it is once changes to `document` went out to every
/// peer with an active session of it among the sessions from number `i` on.
pub open spec fn takes_changes(
    sessions: Seq<SyncSessionView>,
    document: Seq<char>,
    changes: Seq<u8>,
    i: int,
) -> spec_fn(ConnectionView) -> ConnectionView {
    |c: ConnectionView|
        if syncs_from(sessions, c.peer, document, i) {
            ConnectionView {
                handler: handler_after_send(c.handler, changes_message(document, changes)),
                ..c
            }
        } else {
            c
        }
}

/// The predicate "is an active session of `document` with a peer that is
/// not connected".
pub open spec fn is_absent_receiver(handlers: Seq<ConnectionView>, document: Seq<char>)
    -> spec_fn(SyncSessionView) -> bool {
    |s: SyncSessionView|
        s.document_id == document && is_active(s.state) && !is_connected(handlers, s.peer)
}

/// The command that sends changes to the peer of a session.
pub open spec fn changes_for(document: Seq<char>, changes: Seq<u8>) -> spec_fn(
    SyncSessionView,
) -> CommandView {
    |s: SyncSessionView|
        CommandView::SendChanges { document_id: document, changes, peer: s.peer }
}

/// Two predicates that agree on every value keep the same values.
pub proof fn lemma_filter_agrees<T>(s: Seq<T>, p: spec_fn(T) -> bool, q: spec_fn(T) -> bool)
    requires
        forall|x: T| #[trigger] p(x) == q(x),
    ensures
        s.filter(p) == s.filter(q),
    decreases s.len(),
{
    reveal(Seq::filter);
    if s.len() > 0 {
        lemma_filter_agrees(s.drop_last(), p, q);
    }
}

/// Keeping what meets a predicate, of one value.
pub proof fn lemma_filter_one<T>(x: T, p: spec_fn(T) -> bool)
    ensures
        seq![x].filter(p) == (if p(x) {
            seq![x]
        } else {
            Seq::<T>::empty()
        }),
{
    reveal(Seq::filter);
    assert(seq![x].drop_last() =~= Seq::<T>::empty());
    assert(seq![x].drop_last().filter(p) =~= Seq::<T>::empty());
    assert(seq![x].last() == x);
    assert(Seq::<T>::empty().push(x) =~= seq![x]);
}

/// What a broadcast from the session number `i` on does: the handler of
/// every connected peer with an active session of the document among them
/// takes the changes once, the changes wait for every such peer that is not
/// connected, in the order of the sessions, and nothing else is touched.
pub proof fn lemma_broadcast_from(
    b: BehaviourView,
    document: Seq<char>,
    changes: Seq<u8>,
    i: int,
)
    requires
        b.wf(),
        0 <= i <= b.sessions.len(),
    ensures
        b.broadcast(document, changes, i) == (BehaviourView {
            handlers: b.handlers.map_values(takes_changes(b.sessions, document, changes, i)),
            pending: b.pending + b.sessions.skip(i).filter(
                is_absent_receiver(b.handlers, document),
            ).map_values(changes_for(document, changes)),
            ..b
        }),
    decreases b.sessions.len() - i,
{
    let absent = is_absent_receiver(b.handlers, document);
    let order = changes_for(document, changes);
    let now = takes_changes(b.sessions, document, changes, i);
    let tail = b.sessions.skip(i);
    if i == b.sessions.len() {
        reveal(Seq::filter);
        assert(tail =~= Seq::<SyncSessionView>::empty());
        assert(b.pending + tail.filter(absent).map_values(order) =~= b.pending);
        assert(b.handlers.map_values(now) =~= b.handlers) by {
            assert forall|x: int| 0 <= x < b.handlers.len() implies now(b.handlers[x])
                == b.handlers[x] by {
                assert(!syncs_from(b.sessions, b.handlers[x].peer, document, i));
            }
        }
    } else {
        let session = b.sessions[i];
        let later = takes_changes(b.sessions, document, changes, i + 1);
        let rest = b.sessions.skip(i + 1);
        assert(tail =~= seq![session] + rest);
        Seq::filter_distributes_over_add(seq![session], rest, absent);
        lemma_filter_one(session, absent);
        lemma_first_index_is_first(b.handlers, connects(session.peer));
        if session.document_id == document && is_active(session.state) {
            let command = CommandView::SendChanges {
                document_id: document,
                changes,
                peer: session.peer,
            };
            let next = b.deliver(session.peer, command);
            lemma_deliver_keeps_wf(b, session.peer, command);
            lemma_broadcast_from(next, document, changes, i + 1);
            lemma_filter_agrees(rest, is_absent_receiver(next.handlers, document), absent);
            let j = handler_position(b.handlers, session.peer);
            assert(is_active_session_of(b.sessions[i], session.peer, document));
            assert(next.handlers.map_values(later) =~= b.handlers.map_values(now)) by {
                assert forall|x: int| 0 <= x < b.handlers.len() implies later(next.handlers[x])
                    == now(b.handlers[x]) by {
                    let peer = b.handlers[x].peer;
                    if peer == session.peer {
                        // this peer's one session of the document is the session `i`
                        assert(x == j) by {
                            if x < j {
                                assert(!connects(session.peer)(b.handlers[x]));
                            } else if x > j {
                                assert(b.handlers[j].peer != b.handlers[x].peer);
                            }
                        }
                        assert(!syncs_from(b.sessions, peer, document, i + 1)) by {
                            if syncs_from(b.sessions, peer, document, i + 1) {
                                let k = choose|k: int|
                                    0 <= i + 1 <= k < b.sessions.len() && is_active_session_of(
                                        #[trigger] b.sessions[k],
                                        peer,
                                        document,
                                    );
                                assert(!(b.sessions[i].peer == b.sessions[k].peer
                                    && b.sessions[i].document_id == b.sessions[k].document_id));
                            }
                        }
                        assert(syncs_from(b.sessions, peer, document, i));
                    } else {
                        assert(next.handlers[x] == b.handlers[x]);
                        if syncs_from(b.sessions, peer, document, i) {
                            let k = choose|k: int|
                                0 <= i <= k < b.sessions.len() && is_active_session_of(
                                    #[trigger] b.sessions[k],
                                    peer,
                                    document,
                                );
                            assert(k != i);
                            assert(is_active_session_of(b.sessions[k], peer, document));
                            assert(syncs_from(b.sessions, peer, document, i + 1));
                        }
                        if syncs_from(b.sessions, peer, document, i + 1) {
                            let k = choose|k: int|
                                0 <= i + 1 <= k < b.sessions.len() && is_active_session_of(
                                    #[trigger] b.sessions[k],
                                    peer,
                                    document,
                                );
                            assert(is_active_session_of(b.sessions[k], peer, document));
                            assert(syncs_from(b.sessions, peer, document, i));
                        }
                    }
                }
            }
            assert(next.pending + rest.filter(absent).map_values(order) =~= b.pending
                + tail.filter(absent).map_values(order));
        } else {
            lemma_broadcast_from(b, document, changes, i + 1);
            assert(b.handlers.map_values(later) =~= b.handlers.map_values(now)) by {
                assert forall|x: int| 0 <= x < b.handlers.len() implies later(b.handlers[x])
                    == now(b.handlers[x]) by {
                    let peer = b.handlers[x].peer;
                    if syncs_from(b.sessions, peer, document, i) {
                        let k = choose|k: int|
                            0 <= i <= k < b.sessions.len() && is_active_session_of(
                                #[trigger] b.sessions[k],
                                peer,
                                document,
                            );
                        assert(k != i);
                        assert(is_active_session_of(b.sessions[k], peer, document));
                        assert(syncs_from(b.sessions, peer, document, i + 1));
                    }
                    if syncs_from(b.sessions, peer, document, i + 1) {
                        let k = choose|k: int|
                            0 <= i + 1 <= k < b.sessions.len() && is_active_session_of(
                                #[trigger] b.sessions[k],
                                peer,
                                document,
                            );
                        assert(is_active_session_of(b.sessions[k], peer, document));
                        assert(syncs_from(b.sessions, peer, document, i));
                    }
                }
            }
            assert(b.pending + rest.filter(absent).map_values(order) =~= b.pending
                + tail.filter(absent).map_values(order));
        }
    }
}

/// Fan-out: a broadcast of changes to a document puts them, once, into the
/// handler of every connected peer that has an active session of the
/// document, lets them wait for every such peer that is not connected, in
/// the order of the sessions, and touches neither sessions nor events.
pub proof fn lemma_broadcast(b: BehaviourView, document: Seq<char>, changes: Seq<u8>)
    requires
        b.wf(),
    ensures
        b.after_command(CommandView::BroadcastChanges { document_id: document, changes }) == (
        BehaviourView {
            handlers: b.handlers.map_values(takes_changes(b.sessions, document, changes, 0)),
            pending: b.pending + b.sessions.filter(
                is_absent_receiver(b.handlers, document),
            ).map_values(changes_for(document, changes)),
            ..b
        }),
{
    lemma_broadcast_from(b, document, changes, 0);
    assert(b.sessions.skip(0) =~= b.sessions);
}

/// A broken protocol leaves the coordinator well formed.
pub proof fn lemma_protocol_error_keeps_wf(
    b: BehaviourView,
    peer: Seq<u8>,
    document: Seq<char>,
    reason: Reason,
)
    requires
        b.wf(),
    ensures
        b.protocol_error(peer, document, reason).wf(),
{
    lemma_emit_keeps_wf(b, local_error(peer, document, reason));
    lemma_reply_keeps_wf(
        b.emit(local_error(peer, document, reason)),
        peer,
        error_reply(document, reason),
    );
}

/// What a handler reports leaves the coordinator well formed.
pub proof fn lemma_handler_event_keeps_wf(b: BehaviourView, peer: Seq<u8>, event: HandlerEventView)
    requires
        b.wf(),
    ensures
        b.after_handler_event(peer, event).wf(),
{
    match event {
        HandlerEventView::Received(m) => {
            match m {
                MessageView::sync_message(x) => {
                    let document = x.id;
                    lemma_protocol_error_keeps_wf(b, peer, document, Reason::DOCUMENT_NOT_FOUND);
                    lemma_protocol_error_keeps_wf(b, peer, document, Reason::INTERNAL_ERROR);
                    lemma_set_session_keeps_wf(b, peer, document, SessionState::Syncing);
                    lemma_emit_keeps_wf(
                        b.set_session(peer, document, SessionState::Syncing),
                        EventView::DocumentChanged { peer, document_id: document },
                    );
                    lemma_set_session_keeps_wf(b, peer, document, SessionState::Synced);
                    lemma_emit_keeps_wf(
                        b.set_session(peer, document, SessionState::Synced),
                        EventView::DocumentSynced { peer, document_id: document },
                    );
                },
                MessageView::sync_error(e) => {
                    lemma_set_session_keeps_wf(b, peer, e.id, SessionState::Errored);
                    lemma_emit_keeps_wf(
                        b.set_session(peer, e.id, SessionState::Errored),
                        reported_error(peer, e),
                    );
                    lemma_emit_keeps_wf(b, reported_error(peer, e));
                },
                MessageView::available_documents(a) => {
                    lemma_events_keep_wf(b, b.events + a.ids.map_values(changed_at(peer)));
                },
                MessageView::request_available_documents => {},
                MessageView::request_document(r) => {
                    lemma_emit_keeps_wf(b, EventView::SyncRequested { peer, document_id: r.id });
                },
                MessageView::document(d) => {
                    lemma_emit_keeps_wf(b, EventView::DocumentChanged { peer, document_id: d.id });
                },
                MessageView::Empty => {
                    lemma_protocol_error_keeps_wf(
                        b,
                        peer,
                        Seq::empty(),
                        Reason::INVALID_MESSAGE,
                    );
                },
            }
        },
        HandlerEventView::Invalid(_) => {
            lemma_protocol_error_keeps_wf(b, peer, Seq::empty(), Reason::INVALID_MESSAGE);
        },
        HandlerEventView::NegotiationFailed => {
            lemma_fail_sessions_keeps_wf(b, peer, 0);
        },
    }
}

} // verus!
