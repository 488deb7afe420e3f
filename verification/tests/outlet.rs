use std::sync::Arc;

use chippy::behaviour::{Behaviour, Event, FromSwarm, ToSwarm};
use chippy::handler::ConnectionEvent;
use chippy::identity::PeerIdentity;
use chippy::messages::{encode, Document, Message, OneOfmsg};
use tokio::sync::broadcast::{self, error::TryRecvError};

fn peer() -> PeerIdentity {
    PeerIdentity::from_bytes(vec![0, 2, 7, 7])
}

fn changed(n: u8) -> Arc<Event> {
    Arc::new(Event::DocumentChanged { peer: peer(), document_id: format!("doc-{n}") })
}

/// Lets a document come in from the peer and hands out the event that the
/// coordinator has for the application.
fn next_event(coordinator: &mut Behaviour, n: u8) -> Arc<Event> {
    let document = Message {
        msg: OneOfmsg::document(Document { id: format!("doc-{n}"), document: vec![n] }),
    };
    coordinator.on_bytes_received(&peer(), &encode(&document));
    match coordinator.poll() {
        Some(ToSwarm::GenerateEvent(event)) => Arc::new(event),
        other => panic!("unexpected work: {:?}", other),
    }
}

#[test]
fn stalled_subscriber_neither_blocks_the_producer_nor_the_others() {
    let mut coordinator = Behaviour::new();
    coordinator.on_swarm_event(FromSwarm::ConnectionEstablished { peer_id: peer() });
    coordinator.on_connection_event(&peer(), ConnectionEvent::FullyNegotiatedInbound);
    let (outlet, mut stalled) = broadcast::channel::<Arc<Event>>(4);
    let mut first = outlet.subscribe();
    let mut second = outlet.subscribe();
    // the producer publishes more than the outlet holds; no send waits or fails
    for n in 0..10u8 {
        let event = next_event(&mut coordinator, n);
        assert_eq!(event, changed(n));
        assert_eq!(outlet.send(event).unwrap(), 3);
        // the two subscribers that keep up see every event, in order
        assert_eq!(first.try_recv().unwrap(), changed(n));
        assert_eq!(second.try_recv().unwrap(), changed(n));
    }
    assert_eq!(coordinator.poll(), None);
    assert_eq!(first.try_recv(), Err(TryRecvError::Empty));
    // the subscriber that did not consume observes a gap, and then the newest events
    assert_eq!(stalled.try_recv(), Err(TryRecvError::Lagged(6)));
    for n in 6..10u8 {
        assert_eq!(stalled.try_recv().unwrap(), changed(n));
    }
    assert_eq!(stalled.try_recv(), Err(TryRecvError::Empty));
}
