use chippy::handler::Command;
use chippy::identity::{Address, PeerIdentity};
use chippy::swarm_dispatch::{
    EngineCall, LoopStep, QueryProgress, SwarmAction, SwarmCommand, SwarmEvent, SwarmManager,
};
use libp2p::multiaddr::Protocol;
use libp2p::{Multiaddr, PeerId};

fn relay_address() -> Multiaddr {
    "/ip4/203.0.113.7/tcp/4001".parse().unwrap()
}

fn relay_peer() -> PeerId {
    "12D3KooWDpJ7As7BWAwRMfu1VU2WCqNjvq387JEYKDBj4kx6nXTN".parse().unwrap()
}

fn other_peer() -> PeerId {
    "12D3KooWH3uVF6wv47WnArKHk5p6cvgCJEb74UTmxztmQDc298L3".parse().unwrap()
}

fn identity(p: PeerId) -> PeerIdentity {
    PeerIdentity::from_bytes(p.to_bytes())
}

fn manager() -> SwarmManager {
    SwarmManager::new(identity(relay_peer()), Address::from_bytes(relay_address().to_vec()))
        .expect("well formed relay")
}

fn circuit() -> Address {
    Address::from_bytes(
        relay_address()
            .with(Protocol::P2p(relay_peer()))
            .with(Protocol::P2pCircuit)
            .to_vec(),
    )
}

fn sent(p: PeerId) -> SwarmEvent {
    SwarmEvent::IdentifySent { peer_id: identity(p) }
}

fn received(p: PeerId) -> SwarmEvent {
    SwarmEvent::IdentifyReceived {
        peer_id: identity(p),
        observed_address: Address::from_bytes("/ip4/198.51.100.1/tcp/5000".parse::<Multiaddr>().unwrap().to_vec()),
    }
}

#[test]
fn malformed_relay_is_refused() {
    assert!(SwarmManager::new(identity(relay_peer()), Address::from_bytes(vec![0xff, 0xff])).is_none());
    assert!(SwarmManager::new(
        PeerIdentity::from_bytes(vec![1, 2, 3]),
        Address::from_bytes(relay_address().to_vec())
    )
    .is_none());
}

#[test]
fn starts_with_both_flags_down() {
    let m = manager();
    assert!(!m.sent_identify_to_relay());
    assert!(!m.received_identify_from_relay());
}

#[test]
fn connection_to_the_relay_starts_the_bootstrap_query() {
    let mut m = manager();
    let e = SwarmEvent::ConnectionEstablished { peer_id: identity(relay_peer()), relayed: false };
    assert_eq!(m.handle_swarm_event(&e), SwarmAction::Bootstrap);
    let e = SwarmEvent::ConnectionEstablished { peer_id: identity(other_peer()), relayed: true };
    assert_eq!(m.handle_swarm_event(&e), SwarmAction::Nothing);
    assert!(!m.sent_identify_to_relay());
    assert!(!m.received_identify_from_relay());
}

#[test]
fn listens_on_the_circuit_once_identify_went_both_ways() {
    let mut m = manager();
    assert_eq!(m.handle_swarm_event(&sent(relay_peer())), SwarmAction::Nothing);
    assert!(m.sent_identify_to_relay());
    assert!(!m.received_identify_from_relay());
    assert_eq!(m.handle_swarm_event(&received(relay_peer())), SwarmAction::ListenOn(circuit()));
    assert!(m.sent_identify_to_relay());
    assert!(m.received_identify_from_relay());
}

#[test]
fn circuit_address_is_relay_then_p2p_then_circuit() {
    let mut m = manager();
    m.handle_swarm_event(&sent(relay_peer()));
    let action = m.handle_swarm_event(&received(relay_peer()));
    let bytes = match action {
        SwarmAction::ListenOn(a) => a.to_bytes(),
        other => panic!("unexpected action: {:?}", other),
    };
    let parsed = Multiaddr::try_from(bytes).unwrap();
    let expected: Multiaddr = format!("/ip4/203.0.113.7/tcp/4001/p2p/{}/p2p-circuit", relay_peer())
        .parse()
        .unwrap();
    assert_eq!(parsed, expected);
}

#[test]
fn listens_when_identify_was_received_first_and_sent_second() {
    let mut m = manager();
    // one flag alone asks nothing
    assert_eq!(m.handle_swarm_event(&received(relay_peer())), SwarmAction::Nothing);
    assert!(m.received_identify_from_relay());
    assert!(!m.sent_identify_to_relay());
    // the event that brings the second flag up asks to listen
    assert_eq!(m.handle_swarm_event(&sent(relay_peer())), SwarmAction::ListenOn(circuit()));
    assert!(m.sent_identify_to_relay());
    assert!(m.received_identify_from_relay());
}

#[test]
fn does_not_listen_while_a_flag_is_down() {
    let mut m = manager();
    for _ in 0..3 {
        assert_eq!(m.handle_swarm_event(&sent(relay_peer())), SwarmAction::Nothing);
        assert_eq!(m.handle_swarm_event(&sent(other_peer())), SwarmAction::Nothing);
        assert_eq!(m.handle_swarm_event(&received(other_peer())), SwarmAction::Nothing);
        assert!(!m.received_identify_from_relay());
    }
    let mut m = manager();
    for _ in 0..3 {
        assert_eq!(m.handle_swarm_event(&received(relay_peer())), SwarmAction::Nothing);
        assert_eq!(m.handle_swarm_event(&sent(other_peer())), SwarmAction::Nothing);
        assert!(!m.sent_identify_to_relay());
    }
}

#[test]
fn later_exchanges_with_the_relay_ask_to_listen_again() {
    let mut m = manager();
    m.handle_swarm_event(&sent(relay_peer()));
    m.handle_swarm_event(&received(relay_peer()));
    assert_eq!(m.handle_swarm_event(&received(relay_peer())), SwarmAction::ListenOn(circuit()));
    assert_eq!(m.handle_swarm_event(&sent(relay_peer())), SwarmAction::ListenOn(circuit()));
    // and an exchange with another peer does not
    assert_eq!(m.handle_swarm_event(&received(other_peer())), SwarmAction::Nothing);
    assert_eq!(m.handle_swarm_event(&sent(other_peer())), SwarmAction::Nothing);
}

#[test]
fn circuit_address_bytes_are_exact() {
    let mut m = manager();
    let relay = relay_address().to_vec();
    let peer = relay_peer().to_bytes();
    assert_eq!(m.relay_peer_written(), peer);
    let mut expected = relay.clone();
    expected.extend_from_slice(&[0xa5, 0x03, peer.len() as u8]);
    expected.extend_from_slice(&peer);
    expected.extend_from_slice(&[0xa2, 0x02]);
    m.handle_swarm_event(&received(relay_peer()));
    assert_eq!(
        m.handle_swarm_event(&sent(relay_peer())),
        SwarmAction::ListenOn(Address::from_bytes(expected))
    );
}

#[test]
fn relay_spelt_in_a_longer_way_is_written_in_the_short_way() {
    let short = relay_peer().to_bytes();
    // the code of the multihash, spelt in ten bytes
    let mut long = vec![short[0] | 0x80, 0x80, 0x80, 0x80, 0x80, 0x80, 0x80, 0x80, 0x80, 0x02];
    long.extend_from_slice(&short[1..]);
    let mut m = SwarmManager::new(
        PeerIdentity::from_bytes(long.clone()),
        Address::from_bytes(relay_address().to_vec()),
    )
    .expect("the engine lets the longer spelling pass");
    assert_eq!(m.relay_peer_written(), short);
    let as_given = SwarmEvent::IdentifySent { peer_id: PeerIdentity::from_bytes(long.clone()) };
    let other = SwarmEvent::IdentifyReceived {
        peer_id: PeerIdentity::from_bytes(long),
        observed_address: circuit(),
    };
    assert_eq!(m.handle_swarm_event(&as_given), SwarmAction::Nothing);
    assert_eq!(m.handle_swarm_event(&other), SwarmAction::ListenOn(circuit()));
}

#[test]
fn identify_with_other_peers_changes_nothing() {
    let mut m = manager();
    assert_eq!(m.handle_swarm_event(&sent(other_peer())), SwarmAction::Nothing);
    assert_eq!(m.handle_swarm_event(&received(other_peer())), SwarmAction::Nothing);
    assert!(!m.sent_identify_to_relay());
    assert!(!m.received_identify_from_relay());
}

#[test]
fn other_events_ask_nothing() {
    let mut m = manager();
    m.handle_swarm_event(&sent(relay_peer()));
    let events = vec![
        SwarmEvent::NewListenAddr { address: circuit() },
        SwarmEvent::ConnectionClosed { peer_id: identity(relay_peer()), relayed: false },
        SwarmEvent::OutgoingConnectionError { peer: None },
        SwarmEvent::OutgoingConnectionError { peer: Some(identity(relay_peer())) },
        SwarmEvent::DiscoveryQueryProgressed {
            result: QueryProgress::Bootstrap { peer: identity(relay_peer()), num_remaining: 3 },
        },
        SwarmEvent::DiscoveryQueryProgressed { result: QueryProgress::BootstrapFailed },
        SwarmEvent::DiscoveryQueryProgressed {
            result: QueryProgress::GetClosestPeers { peers: vec![identity(other_peer())] },
        },
        SwarmEvent::DiscoveryQueryProgressed { result: QueryProgress::GetClosestPeersFailed },
        SwarmEvent::DiscoveryQueryProgressed { result: QueryProgress::Other },
        SwarmEvent::RelayReservationAccepted { relay_peer_id: identity(relay_peer()), renewal: false },
        SwarmEvent::RelayCircuitEstablished { peer_id: identity(other_peer()), inbound: true },
        SwarmEvent::HolePunchResult { peer_id: identity(other_peer()), success: false },
        SwarmEvent::ConnectivityProbeCompleted { address: circuit(), success: true },
        SwarmEvent::Other,
    ];
    for e in events {
        assert_eq!(m.handle_swarm_event(&e), SwarmAction::Nothing);
        assert!(m.sent_identify_to_relay());
        assert!(!m.received_identify_from_relay());
    }
    // nor do they once both flags are up
    m.handle_swarm_event(&received(relay_peer()));
    let e = SwarmEvent::ConnectionClosed { peer_id: identity(relay_peer()), relayed: false };
    assert_eq!(m.handle_swarm_event(&e), SwarmAction::Nothing);
    assert_eq!(m.handle_swarm_event(&SwarmEvent::Other), SwarmAction::Nothing);
}

#[test]
fn two_nodes_with_the_same_relay_listen_on_the_same_circuit() {
    let mut a = manager();
    let mut b = manager();
    for node in [&mut a, &mut b] {
        let connected = SwarmEvent::ConnectionEstablished {
            peer_id: identity(relay_peer()),
            relayed: false,
        };
        assert_eq!(node.handle_swarm_event(&connected), SwarmAction::Bootstrap);
        assert_eq!(node.handle_swarm_event(&sent(relay_peer())), SwarmAction::Nothing);
        assert_eq!(
            node.handle_swarm_event(&received(relay_peer())),
            SwarmAction::ListenOn(circuit())
        );
    }
    // then A observes its connection to B, which asks nothing more
    let e = SwarmEvent::ConnectionEstablished { peer_id: identity(other_peer()), relayed: true };
    assert_eq!(a.handle_swarm_event(&e), SwarmAction::Nothing);
}

#[test]
fn each_command_is_one_engine_call() {
    let m = manager();
    let key = b"db".to_vec();
    let cases = vec![
        (SwarmCommand::Dial(circuit()), EngineCall::Dial(circuit())),
        (
            SwarmCommand::DialPeerId(identity(other_peer())),
            EngineCall::DialByIdentity(identity(other_peer())),
        ),
        (SwarmCommand::BeginProviderRole(key.clone()), EngineCall::StartProviding(key.clone())),
        (SwarmCommand::StopProviderRole(key.clone()), EngineCall::StopProviding(key.clone())),
        (SwarmCommand::FindProviders(key.clone()), EngineCall::GetProviders(key.clone())),
        (SwarmCommand::ListConnections, EngineCall::ConnectedPeers),
        (
            SwarmCommand::PutTestValue("k".to_string(), "v".to_string()),
            EngineCall::PutValue {
                document_id: "test".to_string(),
                key: "k".to_string(),
                value: "v".to_string(),
            },
        ),
        (
            SwarmCommand::GetTestValue("k".to_string()),
            EngineCall::GetValue { document_id: "test".to_string(), key: "k".to_string() },
        ),
        (
            SwarmCommand::Sync(Command::BroadcastChanges {
                document_id: "notes".to_string(),
                changes: vec![1],
            }),
            EngineCall::Sync(Command::BroadcastChanges {
                document_id: "notes".to_string(),
                changes: vec![1],
            }),
        ),
    ];
    for (command, call) in cases {
        assert_eq!(m.handle_command(Some(command)), LoopStep::Call(call));
    }
}

#[test]
fn closed_inlet_ends_the_loop() {
    assert_eq!(manager().handle_command(None), LoopStep::Exit);
}
