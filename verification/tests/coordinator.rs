use chippy::behaviour::{Behaviour, Event, FromSwarm, SessionState, ToSwarm};
use chippy::handler::{Command, ConnectionEvent, HandlerEvent};
use chippy::identity::PeerIdentity;
use chippy::messages::{
    encode, AvailableDocuments, Document, DocumentSyncError, DocumentSyncMessage, Message,
    OneOfmsg, Reason, RequestAvailableDocuments, RequestDocument, SyncErrorReason,
};
use chippy::reader::decode;
use chippy::wire::DecodeError;

fn peer_a() -> PeerIdentity {
    PeerIdentity::from_bytes(vec![0, 2, 0xa, 0xa])
}

fn peer_b() -> PeerIdentity {
    PeerIdentity::from_bytes(vec![0, 2, 0xb, 0xb])
}

fn notes() -> String {
    "notes".to_string()
}

fn sync(id: &str, payload: &[u8]) -> Message {
    Message {
        msg: OneOfmsg::sync_message(DocumentSyncMessage {
            id: id.to_string(),
            message: payload.to_vec(),
        }),
    }
}

fn start(peer: PeerIdentity, doc: &str) -> Command {
    Command::StartSync { document_id: doc.to_string(), peer }
}

fn error_reply(doc: &str, reason: Reason) -> Message {
    Message {
        msg: OneOfmsg::sync_error(DocumentSyncError {
            id: doc.to_string(),
            reason: Some(SyncErrorReason { reason, details: String::new() }),
        }),
    }
}

fn error_event(peer: PeerIdentity, doc: &str, reason: Reason) -> Event {
    Event::SyncError { peer, document_id: doc.to_string(), reason, error: String::new() }
}

fn drain(b: &mut Behaviour) -> Vec<ToSwarm> {
    let mut out = Vec::new();
    while let Some(work) = b.poll() {
        out.push(work);
        assert!(out.len() < 1000);
    }
    out
}

/// Connects `peer` and opens the stream.
fn connect(b: &mut Behaviour, peer: PeerIdentity) {
    b.on_swarm_event(FromSwarm::ConnectionEstablished { peer_id: peer.clone() });
    b.on_connection_event(&peer, ConnectionEvent::FullyNegotiatedOutbound);
}

#[test]
fn new_coordinator_has_nothing_to_do() {
    let mut b = Behaviour::new();
    assert_eq!(b.poll(), None);
    assert_eq!(b.session_state(&peer_b(), &notes()), None);
    assert!(!b.has_handler(&peer_b()));
}

#[test]
fn start_sync_twice_yields_one_session() {
    let mut b = Behaviour::new();
    connect(&mut b, peer_b());
    b.on_command(start(peer_b(), "notes"));
    b.on_command(start(peer_b(), "notes"));
    assert_eq!(b.session_count(), 1);
    assert_eq!(b.session_state(&peer_b(), &notes()), Some(SessionState::Requesting));
    // only one message goes out
    assert_eq!(
        drain(&mut b),
        vec![ToSwarm::Write { peer_id: peer_b(), bytes: encode(&sync("notes", &[])) }]
    );
    // the second call is a no-op while the session is syncing too
    b.on_bytes_received(&peer_b(), &encode(&sync("notes", &[1])));
    assert_eq!(b.session_state(&peer_b(), &notes()), Some(SessionState::Syncing));
    b.on_command(start(peer_b(), "notes"));
    assert_eq!(b.session_count(), 1);
    assert_eq!(
        drain(&mut b),
        vec![ToSwarm::GenerateEvent(Event::DocumentChanged {
            peer: peer_b(),
            document_id: notes()
        })]
    );
}

#[test]
fn sessions_are_per_peer_and_document() {
    let mut b = Behaviour::new();
    b.on_command(start(peer_b(), "notes"));
    b.on_command(start(peer_a(), "notes"));
    b.on_command(start(peer_b(), "plans"));
    b.on_command(start(peer_b(), "notes"));
    assert_eq!(b.session_count(), 3);
}

#[test]
fn command_for_absent_peer_waits_for_the_connection() {
    let mut b = Behaviour::new();
    b.on_command(start(peer_b(), "notes"));
    b.on_command(start(peer_a(), "plans"));
    b.on_command(Command::SendChanges {
        document_id: notes(),
        changes: vec![5],
        peer: peer_b(),
    });
    assert_eq!(b.pending_count(), 3);
    assert_eq!(b.poll(), None);
    b.handle_established_outbound_connection(peer_b());
    assert!(b.has_handler(&peer_b()));
    assert_eq!(b.pending_count(), 1);
    // the handler asks for its stream, and then writes in the order of the commands
    assert_eq!(b.poll(), Some(ToSwarm::OpenStream { peer_id: peer_b() }));
    assert_eq!(b.poll(), None);
    b.on_connection_event(&peer_b(), ConnectionEvent::FullyNegotiatedOutbound);
    assert_eq!(
        drain(&mut b),
        vec![
            ToSwarm::Write { peer_id: peer_b(), bytes: encode(&sync("notes", &[])) },
            ToSwarm::Write { peer_id: peer_b(), bytes: encode(&sync("notes", &[5])) },
        ]
    );
    // a second connection to the same peer changes nothing
    b.handle_established_inbound_connection(peer_b());
    assert_eq!(b.handler_count(), 1);
    assert_eq!(b.pending_count(), 1);
}

#[test]
fn changes_without_session_raise_document_not_found() {
    let mut b = Behaviour::new();
    connect(&mut b, peer_b());
    b.on_command(Command::SendChanges {
        document_id: notes(),
        changes: vec![1],
        peer: peer_b(),
    });
    b.on_command(Command::RequestSync { document_id: notes(), peer: peer_b() });
    assert_eq!(
        drain(&mut b),
        vec![
            ToSwarm::GenerateEvent(error_event(peer_b(), "notes", Reason::DOCUMENT_NOT_FOUND)),
            ToSwarm::GenerateEvent(error_event(peer_b(), "notes", Reason::DOCUMENT_NOT_FOUND)),
        ]
    );
}

#[test]
fn changes_for_a_finished_session_raise_internal_error() {
    let mut b = Behaviour::new();
    connect(&mut b, peer_b());
    b.on_command(start(peer_b(), "notes"));
    b.on_bytes_received(&peer_b(), &encode(&sync("notes", &[1])));
    b.on_bytes_received(&peer_b(), &encode(&sync("notes", &[2])));
    assert_eq!(b.session_state(&peer_b(), &notes()), Some(SessionState::Synced));
    drain(&mut b);
    b.on_command(Command::SendChanges {
        document_id: notes(),
        changes: vec![1],
        peer: peer_b(),
    });
    assert_eq!(
        drain(&mut b),
        vec![ToSwarm::GenerateEvent(error_event(peer_b(), "notes", Reason::INTERNAL_ERROR))]
    );
    // a new start of sync takes the session back to requesting
    b.on_command(start(peer_b(), "notes"));
    assert_eq!(b.session_state(&peer_b(), &notes()), Some(SessionState::Requesting));
    assert_eq!(b.session_count(), 1);
}

#[test]
fn request_sync_asks_for_the_document() {
    let mut b = Behaviour::new();
    connect(&mut b, peer_b());
    b.on_command(start(peer_b(), "notes"));
    b.on_command(Command::RequestSync { document_id: notes(), peer: peer_b() });
    assert_eq!(
        drain(&mut b),
        vec![
            ToSwarm::Write { peer_id: peer_b(), bytes: encode(&sync("notes", &[])) },
            ToSwarm::Write {
                peer_id: peer_b(),
                bytes: encode(&Message {
                    msg: OneOfmsg::request_document(RequestDocument { id: notes() })
                })
            },
        ]
    );
}

#[test]
fn broadcast_goes_to_every_active_session_of_the_document() {
    let mut b = Behaviour::new();
    connect(&mut b, peer_a());
    connect(&mut b, peer_b());
    b.on_command(start(peer_b(), "notes"));
    b.on_command(start(peer_a(), "notes"));
    b.on_command(start(peer_a(), "plans"));
    drain(&mut b);
    b.on_command(Command::BroadcastChanges { document_id: notes(), changes: vec![9, 9] });
    // handlers are polled in the order of their connections
    assert_eq!(
        drain(&mut b),
        vec![
            ToSwarm::Write { peer_id: peer_a(), bytes: encode(&sync("notes", &[9, 9])) },
            ToSwarm::Write { peer_id: peer_b(), bytes: encode(&sync("notes", &[9, 9])) },
        ]
    );
    // a session that is no longer active gets nothing
    b.on_swarm_event(FromSwarm::ConnectionClosed { peer_id: peer_a() });
    drain(&mut b);
    b.on_command(Command::BroadcastChanges { document_id: notes(), changes: vec![1] });
    assert_eq!(
        drain(&mut b),
        vec![ToSwarm::Write { peer_id: peer_b(), bytes: encode(&sync("notes", &[1])) }]
    );
}

#[test]
fn sync_round_trip_reaches_synced() {
    let mut b = Behaviour::new();
    connect(&mut b, peer_b());
    b.on_command(start(peer_b(), "notes"));
    drain(&mut b);
    b.on_bytes_received(&peer_b(), &encode(&sync("notes", &[1])));
    assert_eq!(
        drain(&mut b),
        vec![ToSwarm::GenerateEvent(Event::DocumentChanged {
            peer: peer_b(),
            document_id: notes()
        })]
    );
    b.on_bytes_received(&peer_b(), &encode(&sync("notes", &[2])));
    assert_eq!(b.session_state(&peer_b(), &notes()), Some(SessionState::Synced));
    assert_eq!(
        drain(&mut b),
        vec![ToSwarm::GenerateEvent(Event::DocumentSynced {
            peer: peer_b(),
            document_id: notes()
        })]
    );
}

#[test]
fn peer_without_the_document_answers_document_not_found() {
    // A starts the sync of "notes" with B
    let mut a = Behaviour::new();
    connect(&mut a, peer_b());
    a.on_command(start(peer_b(), "notes"));
    let sent = drain(&mut a);
    let request = match &sent[..] {
        [ToSwarm::Write { peer_id, bytes }] => {
            assert_eq!(peer_id, &peer_b());
            bytes.clone()
        }
        other => panic!("unexpected work: {:?}", other),
    };
    // B has no such document
    let mut b = Behaviour::new();
    connect(&mut b, peer_a());
    b.on_bytes_received(&peer_a(), &request);
    let answer = drain(&mut b);
    let expected_reply = error_reply("notes", Reason::DOCUMENT_NOT_FOUND);
    assert_eq!(
        answer,
        vec![
            ToSwarm::GenerateEvent(error_event(peer_a(), "notes", Reason::DOCUMENT_NOT_FOUND)),
            ToSwarm::Write { peer_id: peer_a(), bytes: encode(&expected_reply) },
        ]
    );
    let reply = match &answer[1] {
        ToSwarm::Write { bytes, .. } => bytes.clone(),
        other => panic!("unexpected work: {:?}", other),
    };
    assert_eq!(decode(&reply), Ok(expected_reply));
    // A's application observes the error
    a.on_bytes_received(&peer_b(), &reply);
    assert_eq!(a.session_state(&peer_b(), &notes()), Some(SessionState::Errored));
    assert_eq!(
        drain(&mut a),
        vec![ToSwarm::GenerateEvent(error_event(peer_b(), "notes", Reason::DOCUMENT_NOT_FOUND))]
    );
}

#[test]
fn closed_connection_fails_the_syncing_session_and_removes_the_handler() {
    // B syncs "notes" with A
    let mut b = Behaviour::new();
    connect(&mut b, peer_a());
    b.on_command(start(peer_a(), "notes"));
    b.on_command(start(peer_a(), "plans"));
    connect(&mut b, peer_b());
    b.on_command(start(peer_b(), "notes"));
    b.on_bytes_received(&peer_a(), &encode(&sync("notes", &[1])));
    assert_eq!(b.session_state(&peer_a(), &notes()), Some(SessionState::Syncing));
    drain(&mut b);
    // A closes its connection
    b.on_swarm_event(FromSwarm::ConnectionClosed { peer_id: peer_a() });
    assert!(!b.has_handler(&peer_a()));
    assert!(b.has_handler(&peer_b()));
    assert_eq!(b.session_state(&peer_a(), &notes()), Some(SessionState::Errored));
    assert_eq!(b.session_state(&peer_a(), &"plans".to_string()), Some(SessionState::Errored));
    assert_eq!(b.session_state(&peer_b(), &notes()), Some(SessionState::Requesting));
    assert_eq!(
        drain(&mut b),
        vec![
            ToSwarm::GenerateEvent(error_event(peer_a(), "notes", Reason::INTERNAL_ERROR)),
            ToSwarm::GenerateEvent(error_event(peer_a(), "plans", Reason::INTERNAL_ERROR)),
        ]
    );
    // closing once more finds no handler, and fails the sessions again
    b.on_connection_closed(&peer_a());
    assert_eq!(drain(&mut b).len(), 2);
}

#[test]
fn reported_error_carries_reason_and_text() {
    let mut b = Behaviour::new();
    connect(&mut b, peer_b());
    b.on_command(start(peer_b(), "notes"));
    drain(&mut b);
    let report = Message {
        msg: OneOfmsg::sync_error(DocumentSyncError {
            id: notes(),
            reason: Some(SyncErrorReason {
                reason: Reason::INVALID_MESSAGE,
                details: "bad round".to_string(),
            }),
        }),
    };
    b.on_connection_handler_event(peer_b(), HandlerEvent::Received(report));
    assert_eq!(b.session_state(&peer_b(), &notes()), Some(SessionState::Errored));
    assert_eq!(
        drain(&mut b),
        vec![ToSwarm::GenerateEvent(Event::SyncError {
            peer: peer_b(),
            document_id: notes(),
            reason: Reason::INVALID_MESSAGE,
            error: "bad round".to_string()
        })]
    );
    // a report without a reason, for a document without a session
    let bare = Message {
        msg: OneOfmsg::sync_error(DocumentSyncError { id: "plans".to_string(), reason: None }),
    };
    b.on_connection_handler_event(peer_b(), HandlerEvent::Received(bare));
    assert_eq!(b.session_state(&peer_b(), &"plans".to_string()), None);
    assert_eq!(
        drain(&mut b),
        vec![ToSwarm::GenerateEvent(error_event(peer_b(), "plans", Reason::UNKNOWN))]
    );
}

#[test]
fn data_transfer_messages_become_events() {
    let mut b = Behaviour::new();
    connect(&mut b, peer_b());
    let inbound = vec![
        Message { msg: OneOfmsg::request_document(RequestDocument { id: notes() }) },
        Message { msg: OneOfmsg::document(Document { id: notes(), document: vec![1, 2] }) },
        Message {
            msg: OneOfmsg::available_documents(AvailableDocuments {
                ids: vec!["a".to_string(), "b".to_string()],
            }),
        },
        Message { msg: OneOfmsg::request_available_documents(RequestAvailableDocuments {}) },
    ];
    for m in inbound {
        b.on_bytes_received(&peer_b(), &encode(&m));
    }
    let changed = |doc: &str| {
        ToSwarm::GenerateEvent(Event::DocumentChanged {
            peer: peer_b(),
            document_id: doc.to_string(),
        })
    };
    assert_eq!(
        drain(&mut b),
        vec![
            ToSwarm::GenerateEvent(Event::SyncRequested {
                peer: peer_b(),
                document_id: notes()
            }),
            changed("notes"),
            changed("a"),
            changed("b"),
        ]
    );
    assert_eq!(b.session_count(), 0);
}

#[test]
fn malformed_bytes_and_empty_envelope_raise_invalid_message() {
    let mut b = Behaviour::new();
    connect(&mut b, peer_b());
    b.on_bytes_received(&peer_b(), &[10, 5, 1]);
    b.on_bytes_received(&peer_b(), &[]);
    b.on_connection_handler_event(peer_b(), HandlerEvent::Invalid(DecodeError::Utf8));
    // each is raised for the application, and the peer is told of each
    let told = ToSwarm::Write {
        peer_id: peer_b(),
        bytes: encode(&error_reply("", Reason::INVALID_MESSAGE)),
    };
    assert_eq!(encode(&error_reply("", Reason::INVALID_MESSAGE)), vec![18, 4, 18, 2, 8, 1]);
    assert_eq!(
        drain(&mut b),
        vec![
            ToSwarm::GenerateEvent(error_event(peer_b(), "", Reason::INVALID_MESSAGE)),
            ToSwarm::GenerateEvent(error_event(peer_b(), "", Reason::INVALID_MESSAGE)),
            ToSwarm::GenerateEvent(error_event(peer_b(), "", Reason::INVALID_MESSAGE)),
            told.clone(),
            told.clone(),
            told,
        ]
    );
}

#[test]
fn sync_message_for_a_finished_session_raises_internal_error() {
    let mut b = Behaviour::new();
    connect(&mut b, peer_b());
    b.on_command(start(peer_b(), "notes"));
    b.on_bytes_received(&peer_b(), &encode(&sync("notes", &[1])));
    b.on_bytes_received(&peer_b(), &encode(&sync("notes", &[2])));
    drain(&mut b);
    b.on_bytes_received(&peer_b(), &encode(&sync("notes", &[3])));
    assert_eq!(b.session_state(&peer_b(), &notes()), Some(SessionState::Synced));
    assert_eq!(
        drain(&mut b),
        vec![
            ToSwarm::GenerateEvent(error_event(peer_b(), "notes", Reason::INTERNAL_ERROR)),
            ToSwarm::Write {
                peer_id: peer_b(),
                bytes: encode(&error_reply("notes", Reason::INTERNAL_ERROR))
            },
        ]
    );
}

#[test]
fn failed_negotiation_fails_the_sessions_and_keeps_the_connection() {
    let mut b = Behaviour::new();
    b.on_swarm_event(FromSwarm::ConnectionEstablished { peer_id: peer_b() });
    b.on_command(start(peer_b(), "notes"));
    assert_eq!(b.poll(), Some(ToSwarm::OpenStream { peer_id: peer_b() }));
    b.on_connection_event(&peer_b(), ConnectionEvent::DialUpgradeError);
    assert!(b.has_handler(&peer_b()));
    assert_eq!(b.session_state(&peer_b(), &notes()), Some(SessionState::Errored));
    assert_eq!(
        b.poll(),
        Some(ToSwarm::GenerateEvent(error_event(peer_b(), "notes", Reason::INTERNAL_ERROR)))
    );
}

#[test]
fn bytes_from_a_peer_without_connection_are_dropped() {
    let mut b = Behaviour::new();
    b.on_bytes_received(&peer_b(), &encode(&sync("notes", &[1])));
    b.on_connection_event(&peer_b(), ConnectionEvent::FullyNegotiatedInbound);
    b.on_swarm_event(FromSwarm::Other);
    assert_eq!(b.poll(), None);
    assert_eq!(b.find_handler(&peer_b()), 0);
    assert_eq!(b.find_session(&peer_b(), &notes()), 0);
}

#[test]
fn error_for_a_peer_that_is_gone_is_raised_and_not_told() {
    let mut b = Behaviour::new();
    b.on_connection_handler_event(peer_b(), HandlerEvent::Invalid(DecodeError::Varint));
    b.on_connection_handler_event(
        peer_b(),
        HandlerEvent::Received(sync("notes", &[1])),
    );
    assert_eq!(
        drain(&mut b),
        vec![
            ToSwarm::GenerateEvent(error_event(peer_b(), "", Reason::INVALID_MESSAGE)),
            ToSwarm::GenerateEvent(error_event(peer_b(), "notes", Reason::DOCUMENT_NOT_FOUND)),
        ]
    );
    assert_eq!(b.pending_count(), 0);
    assert_eq!(b.event_count(), 0);
    assert!(b.is_well_formed());
}
