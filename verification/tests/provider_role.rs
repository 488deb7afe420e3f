use chippy::identity::{Address, PeerIdentity};
use chippy::swarm_dispatch::{EngineCall, LoopStep, SwarmCommand, SwarmManager};
use libp2p::kad::store::{MemoryStore, RecordStore};
use libp2p::kad::{Behaviour, RecordKey};
use libp2p::{Multiaddr, PeerId};

fn local_peer() -> PeerId {
    "12D3KooWDpJ7As7BWAwRMfu1VU2WCqNjvq387JEYKDBj4kx6nXTN".parse().unwrap()
}

fn manager() -> SwarmManager {
    let relay: Multiaddr = "/ip4/203.0.113.7/tcp/4001".parse().unwrap();
    let relay_peer: PeerId = "12D3KooWH3uVF6wv47WnArKHk5p6cvgCJEb74UTmxztmQDc298L3".parse().unwrap();
    SwarmManager::new(PeerIdentity::from_bytes(relay_peer.to_bytes()), Address::from_bytes(relay.to_vec()))
        .unwrap()
}

/// Makes the engine call that the actor decided on, on the table of a node
/// that stands alone.
fn perform(table: &mut Behaviour<MemoryStore>, step: LoopStep) {
    match step {
        LoopStep::Call(EngineCall::StartProviding(key)) => {
            let _ = table.start_providing(RecordKey::new(&key));
        }
        LoopStep::Call(EngineCall::StopProviding(key)) => {
            table.stop_providing(&RecordKey::new(&key));
        }
        other => panic!("unexpected step: {:?}", other),
    }
}

fn provided(table: &mut Behaviour<MemoryStore>) -> usize {
    table.store_mut().provided().count()
}

#[test]
fn stop_without_begin_is_a_no_op() {
    let m = manager();
    let mut table = Behaviour::new(local_peer(), MemoryStore::new(local_peer()));
    perform(&mut table, m.handle_command(Some(SwarmCommand::StopProviderRole(b"db".to_vec()))));
    assert_eq!(provided(&mut table), 0);
}

#[test]
fn begin_then_stop_leaves_no_provider_record() {
    let m = manager();
    let mut table = Behaviour::new(local_peer(), MemoryStore::new(local_peer()));
    perform(&mut table, m.handle_command(Some(SwarmCommand::BeginProviderRole(b"db".to_vec()))));
    assert_eq!(provided(&mut table), 1);
    // beginning once more is no error and adds no second record
    perform(&mut table, m.handle_command(Some(SwarmCommand::BeginProviderRole(b"db".to_vec()))));
    assert_eq!(provided(&mut table), 1);
    perform(&mut table, m.handle_command(Some(SwarmCommand::StopProviderRole(b"db".to_vec()))));
    assert_eq!(provided(&mut table), 0);
    perform(&mut table, m.handle_command(Some(SwarmCommand::StopProviderRole(b"db".to_vec()))));
    assert_eq!(provided(&mut table), 0);
}
