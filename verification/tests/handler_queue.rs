use chippy::handler::{
    Command, ConnectionEvent, ConnectionHandlerEvent, Handler, HandlerEvent, HandlerState,
    InEvent,
};
use chippy::identity::PeerIdentity;
use chippy::messages::{
    encode, DocumentSyncMessage, Message, OneOfmsg, RequestDocument,
};
use chippy::wire::DecodeError;

fn peer(n: u8) -> PeerIdentity {
    PeerIdentity::from_bytes(vec![0, 2, n, n])
}

fn sync(id: &str, payload: &[u8]) -> Message {
    Message {
        msg: OneOfmsg::sync_message(DocumentSyncMessage {
            id: id.to_string(),
            message: payload.to_vec(),
        }),
    }
}

#[test]
fn new_handler_is_idle_and_pending() {
    let mut h = Handler::new();
    assert_eq!(h.state, HandlerState::Idle);
    assert!(!h.has_work());
    assert_eq!(h.poll(), ConnectionHandlerEvent::Pending);
    assert_eq!(h.state, HandlerState::Idle);
}

#[test]
fn commands_become_wire_messages() {
    assert_eq!(
        Command::StartSync { document_id: "notes".to_string(), peer: peer(1) }.into_message(),
        sync("notes", &[])
    );
    assert_eq!(
        Command::SendChanges {
            document_id: "notes".to_string(),
            changes: vec![1, 2],
            peer: peer(1)
        }
        .into_message(),
        sync("notes", &[1, 2])
    );
    assert_eq!(
        Command::BroadcastChanges { document_id: "notes".to_string(), changes: vec![3] }
            .into_message(),
        sync("notes", &[3])
    );
    assert_eq!(
        Command::RequestSync { document_id: "notes".to_string(), peer: peer(1) }.into_message(),
        Message { msg: OneOfmsg::request_document(RequestDocument { id: "notes".to_string() }) }
    );
}

#[test]
fn commands_before_open_are_delivered_first_in_first_out() {
    let mut h = Handler::new();
    h.on_command(Command::StartSync { document_id: "a".to_string(), peer: peer(1) });
    h.on_command(Command::BroadcastChanges { document_id: "a".to_string(), changes: vec![1] });
    h.on_command(Command::RequestSync { document_id: "b".to_string(), peer: peer(1) });
    // the first poll asks for the stream, the next ones wait for it
    assert_eq!(h.poll(), ConnectionHandlerEvent::OutboundSubstreamRequest);
    assert_eq!(h.state, HandlerState::AwaitingStream);
    assert_eq!(h.poll(), ConnectionHandlerEvent::Pending);
    h.on_command(Command::SendChanges {
        document_id: "a".to_string(),
        changes: vec![2],
        peer: peer(1),
    });
    assert_eq!(h.poll(), ConnectionHandlerEvent::Pending);
    h.on_connection_event(ConnectionEvent::FullyNegotiatedOutbound);
    assert_eq!(h.state, HandlerState::Open);
    assert_eq!(h.poll(), ConnectionHandlerEvent::Write(encode(&sync("a", &[]))));
    assert_eq!(h.poll(), ConnectionHandlerEvent::Write(encode(&sync("a", &[1]))));
    assert_eq!(
        h.poll(),
        ConnectionHandlerEvent::Write(encode(&Message {
            msg: OneOfmsg::request_document(RequestDocument { id: "b".to_string() })
        }))
    );
    assert_eq!(h.poll(), ConnectionHandlerEvent::Write(encode(&sync("a", &[2]))));
    assert_eq!(h.poll(), ConnectionHandlerEvent::Pending);
    assert_eq!(h.poll(), ConnectionHandlerEvent::Pending);
}

#[test]
fn inbound_stream_opens_an_idle_handler() {
    let mut h = Handler::new();
    h.on_connection_event(ConnectionEvent::FullyNegotiatedInbound);
    assert_eq!(h.state, HandlerState::Open);
    h.on_command(Command::StartSync { document_id: "a".to_string(), peer: peer(1) });
    assert_eq!(h.poll(), ConnectionHandlerEvent::Write(encode(&sync("a", &[]))));
}

#[test]
fn negotiation_failure_is_reported_and_keeps_the_queue() {
    let mut h = Handler::new();
    h.on_command(Command::StartSync { document_id: "a".to_string(), peer: peer(1) });
    assert_eq!(h.poll(), ConnectionHandlerEvent::OutboundSubstreamRequest);
    h.on_connection_event(ConnectionEvent::DialUpgradeError);
    assert_eq!(h.state, HandlerState::Idle);
    assert_eq!(
        h.poll(),
        ConnectionHandlerEvent::NotifyBehaviour(HandlerEvent::NegotiationFailed)
    );
    // the command still waits, and the stream is asked for again
    assert_eq!(h.poll(), ConnectionHandlerEvent::OutboundSubstreamRequest);
    h.on_connection_event(ConnectionEvent::FullyNegotiatedOutbound);
    assert_eq!(h.poll(), ConnectionHandlerEvent::Write(encode(&sync("a", &[]))));
}

#[test]
fn failure_on_an_open_stream_keeps_it_open() {
    let mut h = Handler::new();
    h.on_connection_event(ConnectionEvent::FullyNegotiatedOutbound);
    h.on_connection_event(ConnectionEvent::ListenUpgradeError);
    assert_eq!(h.state, HandlerState::Open);
    assert_eq!(
        h.poll(),
        ConnectionHandlerEvent::NotifyBehaviour(HandlerEvent::NegotiationFailed)
    );
}

#[test]
fn other_connection_events_change_nothing() {
    let mut h = Handler::new();
    h.on_connection_event(ConnectionEvent::AddressChange);
    h.on_connection_event(ConnectionEvent::LocalProtocolsChange);
    h.on_connection_event(ConnectionEvent::RemoteProtocolsChange);
    h.on_behaviour_event(InEvent::DocumentChanged { document_id: "a".to_string() });
    assert_eq!(h.state, HandlerState::Idle);
    assert_eq!(h.poll(), ConnectionHandlerEvent::Pending);
}

#[test]
fn received_bytes_are_reported_before_anything_is_written() {
    let mut h = Handler::new();
    h.on_connection_event(ConnectionEvent::FullyNegotiatedOutbound);
    h.on_command(Command::StartSync { document_id: "a".to_string(), peer: peer(1) });
    h.on_bytes_received(&encode(&sync("b", &[7])));
    h.on_bytes_received(&[10, 5, 1]);
    h.on_bytes_received(&[]);
    assert!(h.has_work());
    assert_eq!(
        h.poll(),
        ConnectionHandlerEvent::NotifyBehaviour(HandlerEvent::Received(sync("b", &[7])))
    );
    assert_eq!(
        h.poll(),
        ConnectionHandlerEvent::NotifyBehaviour(HandlerEvent::Invalid(
            DecodeError::UnexpectedEndOfBuffer
        ))
    );
    assert_eq!(
        h.poll(),
        ConnectionHandlerEvent::NotifyBehaviour(HandlerEvent::Received(Message {
            msg: OneOfmsg::Empty
        }))
    );
    assert_eq!(h.poll(), ConnectionHandlerEvent::Write(encode(&sync("a", &[]))));
    assert_eq!(h.poll(), ConnectionHandlerEvent::Pending);
}
