//! The decisions of the actor that owns the overlay engine: what each
//! observed event asks of the engine during bootstrap, and which engine call
//! each command stands for.

use crate::behaviour::Event;
use crate::handler::{Command, CommandView};
use crate::identity::{copy_bytes, Address, PeerIdentity};
use crate::wire::varint;
use libp2p::multiaddr::Protocol;
use libp2p::{Multiaddr, PeerId};
use vstd::prelude::*;

verus! {

/// The binary form of `address / p2p(peer) / p2p-circuit`, where `address` is
/// the binary form of a locator and `peer` the multihash bytes of a peer;
/// `None` where either is not well formed.
pub uninterp spec fn circuit_address_of(address: Seq<u8>, peer: Seq<u8>) -> Option<Seq<u8>>;

/// The component `p2p(peer)` of a locator: its code, 421, as a varint, then
/// the length of the peer's bytes and the bytes.
pub open spec fn p2p_component(peer: Seq<u8>) -> Seq<u8> {
    seq![0xa5u8, 0x03u8] + varint(peer.len()) + peer
}

/// The component `p2p-circuit` of a locator: its code, 290, as a varint.
pub open spec fn p2p_circuit_component() -> Seq<u8> {
    seq![0xa2u8, 0x02u8]
}

/// The locator `address / p2p(peer) / p2p-circuit` in its binary form.
pub open spec fn circuit_through(address: Seq<u8>, peer: Seq<u8>) -> Seq<u8> {
    address + p2p_component(peer) + p2p_circuit_component()
}

/// Appends the components `p2p(peer)` and `p2p-circuit` to a locator with
/// `Multiaddr::with`, and hands out, with the new locator, the peer's bytes
/// as `PeerId::to_bytes` writes them. The bytes given are parsed with
/// `Multiaddr::try_from` and `PeerId::from_bytes`; where either refuses them
/// the result is `None`. The contract claims that the result is a function
/// of the two byte strings, and that the new locator is the given one, then
/// the two components, the first over the peer's bytes as they are written.
/// Those are the bytes given unless they spell the peer in a longer way than
/// need be, which `PeerId::from_bytes` lets pass.
#[verifier::external_body]
fn circuit_address(address: &Vec<u8>, peer: &Vec<u8>) -> (r: Option<(Vec<u8>, Vec<u8>)>)
    ensures
        match r {
            Some((written, circuit)) => circuit_address_of(address@, peer@) == Some(circuit@)
                && circuit@ == circuit_through(address@, written@),
            None => circuit_address_of(address@, peer@).is_none(),
        },
{
    let base = Multiaddr::try_from(address.clone()).ok()?;
    let peer_id = PeerId::from_bytes(peer).ok()?;
    let circuit = base.with(Protocol::P2p(peer_id)).with(Protocol::P2pCircuit).to_vec();
    Some((peer_id.to_bytes(), circuit))
}

/// The outcome of a discovery query, as far as the actor tells one kind
/// from another.
#[derive(Debug, Clone, PartialEq, Eq)]
pub enum QueryProgress {
    /// A bootstrap round with `peer` is done; `num_remaining` rounds remain.
    Bootstrap { peer: PeerIdentity, num_remaining: u32 },
    /// The bootstrap query failed.
    BootstrapFailed,
    /// The peers closest to the key that was looked up.
    GetClosestPeers { peers: Vec<PeerIdentity> },
    /// The lookup of the closest peers failed.
    GetClosestPeersFailed,
    /// Any other query result.
    Other,
}

/// What the overlay engine reports to the actor.
#[derive(Debug, Clone, PartialEq, Eq)]
pub enum SwarmEvent {
    NewListenAddr { address: Address },
    ConnectionEstablished { peer_id: PeerIdentity, relayed: bool },
    ConnectionClosed { peer_id: PeerIdentity, relayed: bool },
    OutgoingConnectionError { peer: Option<PeerIdentity> },
    IdentifySent { peer_id: PeerIdentity },
    IdentifyReceived { peer_id: PeerIdentity, observed_address: Address },
    DiscoveryQueryProgressed { result: QueryProgress },
    RelayReservationAccepted { relay_peer_id: PeerIdentity, renewal: bool },
    RelayCircuitEstablished { peer_id: PeerIdentity, inbound: bool },
    HolePunchResult { peer_id: PeerIdentity, success: bool },
    ConnectivityProbeCompleted { address: Address, success: bool },
    /// An event of the sync protocol, on its way to the application.
    Sync(Event),
    Other,
}

/// What the actor asks of the engine in answer to an event.
#[derive(Debug, Clone, PartialEq, Eq)]
pub enum SwarmAction {
    /// Nothing is asked.
    Nothing,
    /// Start a bootstrap query of the distributed hash table.
    Bootstrap,
    /// Begin listening on the given locator.
    ListenOn(Address),
}

/// The two facts that the actor has learnt about its exchange of identity
/// with the relay.
pub struct BootstrapState {
    pub sent_identify_to_relay: bool,
    pub received_identify_from_relay: bool,
}

/// Whether `event` is the engine's report that our identity went out to the
/// peer `relay`.
pub open spec fn is_identify_sent_to(event: SwarmEvent, relay: Seq<u8>) -> bool {
    event matches SwarmEvent::IdentifySent { peer_id } && peer_id@ == relay
}

/// Whether `event` is the engine's report that the identity of the peer
/// `relay` came in.
pub open spec fn is_identify_received_from(event: SwarmEvent, relay: Seq<u8>) -> bool {
    event matches SwarmEvent::IdentifyReceived { peer_id, .. } && peer_id@ == relay
}

/// Whether `event` is the engine's report of a new connection to the peer
/// `relay`.
pub open spec fn is_connection_established_with(event: SwarmEvent, relay: Seq<u8>) -> bool {
    event matches SwarmEvent::ConnectionEstablished { peer_id, .. } && peer_id@ == relay
}

/// The bootstrap state after `event`, for a relay with identifier `relay`.
pub open spec fn bootstrap_next(state: BootstrapState, relay: Seq<u8>, event: SwarmEvent)
    -> BootstrapState {
    BootstrapState {
        sent_identify_to_relay: state.sent_identify_to_relay || is_identify_sent_to(event, relay),
        received_identify_from_relay: state.received_identify_from_relay
            || is_identify_received_from(event, relay),
    }
}

/// Whether `event` is one of the two reports of the exchange of identity
/// with the peer `relay`.
pub open spec fn is_identify_with(event: SwarmEvent, relay: Seq<u8>) -> bool {
    is_identify_sent_to(event, relay) || is_identify_received_from(event, relay)
}

/// Whether `event`, observed in `state`, makes the actor listen on the
/// circuit locator: it is a report of the exchange of identity with the
/// relay, and once it is taken note of, identity has gone both ways,
/// whichever way went first.
pub open spec fn listens_on_circuit(state: BootstrapState, relay: Seq<u8>, event: SwarmEvent)
    -> bool {
    &&& is_identify_with(event, relay)
    &&& bootstrap_next(state, relay, event).sent_identify_to_relay
    &&& bootstrap_next(state, relay, event).received_identify_from_relay
}

/// The actor's bookkeeping: the relay it was configured with, the circuit
/// locator through that relay, and how far the exchange of identity has come.
pub struct SwarmManager {
    relay_peer_id: PeerIdentity,
    relay_peer_written: Vec<u8>,
    relay_address: Address,
    circuit: Address,
    sent_identify: bool,
    received_identify: bool,
}

impl SwarmManager {
    #[verifier::type_invariant]
    spec fn circuit_is_derived(self) -> bool {
        &&& circuit_address_of(self.relay_address@, self.relay_peer_id@) == Some(self.circuit@)
        &&& self.circuit@ == circuit_through(self.relay_address@, self.relay_peer_written@)
    }

    /// The identifier of the configured relay.
    pub closed spec fn relay_peer(&self) -> Seq<u8> {
        self.relay_peer_id@
    }

    /// The locator of the configured relay.
    pub closed spec fn relay_locator(&self) -> Seq<u8> {
        self.relay_address@
    }

    /// The two bootstrap flags.
    pub closed spec fn bootstrap(&self) -> BootstrapState {
        BootstrapState {
            sent_identify_to_relay: self.sent_identify,
            received_identify_from_relay: self.received_identify,
        }
    }

    /// The relay's identifier as the engine writes it into a locator: the
    /// identifier itself, unless that spells the relay in a longer way than
    /// need be.
    pub closed spec fn relay_peer_as_written(&self) -> Seq<u8> {
        self.relay_peer_written@
    }

    /// The circuit locator: `relay_locator / p2p(relay_peer) / p2p-circuit`.
    pub open spec fn circuit_locator(&self) -> Seq<u8> {
        circuit_through(self.relay_locator(), self.relay_peer_as_written())
    }

    /// Starts with both flags down. `None` where the relay's locator or
    /// identifier is not well formed, so that no circuit locator exists.
    pub fn new(relay_peer_id: PeerIdentity, relay_address: Address) -> (r: Option<SwarmManager>)
        ensures
            r.is_some() == circuit_address_of(relay_address@, relay_peer_id@).is_some(),
            r matches Some(m) ==> {
                &&& m.relay_peer() == relay_peer_id@
                &&& m.relay_locator() == relay_address@
                &&& circuit_address_of(relay_address@, relay_peer_id@) == Some(m.circuit_locator())
                &&& !m.bootstrap().sent_identify_to_relay
                &&& !m.bootstrap().received_identify_from_relay
            },
    {
        match circuit_address(&relay_address.bytes, &relay_peer_id.bytes) {
            Some((written, circuit)) => Some(
                SwarmManager {
                    relay_peer_id,
                    relay_peer_written: written,
                    relay_address,
                    circuit: Address::from_bytes(circuit),
                    sent_identify: false,
                    received_identify: false,
                },
            ),
            None => None,
        }
    }

    /// The relay's identifier as the engine writes it into a locator.
    pub fn relay_peer_written(&self) -> (r: Vec<u8>)
        ensures
            r@ == self.relay_peer_as_written(),
    {
        copy_bytes(self.relay_peer_written.as_slice())
    }

    /// Whether our identity has gone out to the relay.
    pub fn sent_identify_to_relay(&self) -> (r: bool)
        ensures
            r == self.bootstrap().sent_identify_to_relay,
    {
        self.sent_identify
    }

    /// Whether the relay's identity has come in.
    pub fn received_identify_from_relay(&self) -> (r: bool)
        ensures
            r == self.bootstrap().received_identify_from_relay,
    {
        self.received_identify
    }

    /// Takes note of an event of the engine and says what the engine is to do
    /// next. A new connection to the relay asks for a bootstrap query. Our
    /// identity going out to the relay raises the first flag, the relay's
    /// identity coming in raises the second, and either asks to listen on
    /// the circuit locator, `relay_locator / p2p(relay_peer) / p2p-circuit`,
    /// if both flags are up once it is taken note of. Every other event
    /// leaves the state as it is and asks nothing.
    pub fn handle_swarm_event(&mut self, event: &SwarmEvent) -> (action: SwarmAction)
        ensures
            final(self).relay_peer() == old(self).relay_peer(),
            final(self).relay_locator() == old(self).relay_locator(),
            final(self).relay_peer_as_written() == old(self).relay_peer_as_written(),
            final(self).bootstrap() == bootstrap_next(
                old(self).bootstrap(),
                old(self).relay_peer(),
                *event,
            ),
            action is ListenOn <==> listens_on_circuit(
                old(self).bootstrap(),
                old(self).relay_peer(),
                *event,
            ),
            action is Bootstrap <==> is_connection_established_with(*event, old(self).relay_peer()),
            action matches SwarmAction::ListenOn(a) ==> a@ == old(self).circuit_locator(),
    {
        proof {
            use_type_invariant(&*self);
        }
        match event {
            SwarmEvent::ConnectionEstablished { peer_id, .. } => {
                if self.relay_peer_id.same_as(peer_id) {
                    SwarmAction::Bootstrap
                } else {
                    SwarmAction::Nothing
                }
            },
            SwarmEvent::IdentifySent { peer_id } => {
                if self.relay_peer_id.same_as(peer_id) {
                    self.sent_identify = true;
                    if self.received_identify {
                        SwarmAction::ListenOn(self.circuit.duplicate())
                    } else {
                        SwarmAction::Nothing
                    }
                } else {
                    SwarmAction::Nothing
                }
            },
            SwarmEvent::IdentifyReceived { peer_id, .. } => {
                if self.relay_peer_id.same_as(peer_id) {
                    self.received_identify = true;
                    if self.sent_identify {
                        SwarmAction::ListenOn(self.circuit.duplicate())
                    } else {
                        SwarmAction::Nothing
                    }
                } else {
                    SwarmAction::Nothing
                }
            },
            _ => SwarmAction::Nothing,
        }
    }
}

/// The bootstrap state after the events `events`, observed one after another
/// from `state` on.
pub open spec fn bootstrap_after(state: BootstrapState, relay: Seq<u8>, events: Seq<SwarmEvent>)
    -> BootstrapState
    decreases events.len(),
{
    if events.len() == 0 {
        state
    } else {
        bootstrap_next(bootstrap_after(state, relay, events.drop_last()), relay, events.last())
    }
}

/// The state in which nothing has been exchanged with the relay yet.
pub open spec fn bootstrap_start() -> BootstrapState {
    BootstrapState { sent_identify_to_relay: false, received_identify_from_relay: false }
}

/// Bootstrap ordering: listening on the circuit locator is asked for by an
/// event only if both flags are up once the event is taken note of; it is
/// asked for by the event that brings the second flag up, whichever of the
/// two flags that is; and it is not asked for while a flag is down.
pub proof fn lemma_listen_iff_both_flags(state: BootstrapState, relay: Seq<u8>, event: SwarmEvent)
    ensures
        ({
            let next = bootstrap_next(state, relay, event);
            let both_before = state.sent_identify_to_relay && state.received_identify_from_relay;
            let both_after = next.sent_identify_to_relay && next.received_identify_from_relay;
            &&& listens_on_circuit(state, relay, event) ==> both_after
            &&& !both_before && both_after ==> listens_on_circuit(state, relay, event)
            &&& !both_after ==> !listens_on_circuit(state, relay, event)
            &&& listens_on_circuit(state, relay, event) <==> is_identify_with(event, relay)
                && both_after
        }),
{
}

/// A flag, once up, stays up; and from the start each flag is up exactly
/// when the event that raises it has been observed.
pub proof fn lemma_flags_record_history(relay: Seq<u8>, events: Seq<SwarmEvent>)
    ensures
        bootstrap_after(bootstrap_start(), relay, events).sent_identify_to_relay <==> exists|i: int|
            0 <= i < events.len() && is_identify_sent_to(#[trigger] events[i], relay),
        bootstrap_after(bootstrap_start(), relay, events).received_identify_from_relay
            <==> exists|i: int|
            0 <= i < events.len() && is_identify_received_from(#[trigger] events[i], relay),
    decreases events.len(),
{
    if events.len() > 0 {
        let front = events.drop_last();
        lemma_flags_record_history(relay, front);
        let n = events.len() - 1;
        assert(forall|i: int| 0 <= i < n ==> front[i] == events[i]);
        if bootstrap_after(bootstrap_start(), relay, front).sent_identify_to_relay {
            let i = choose|i: int| 0 <= i < front.len() && is_identify_sent_to(#[trigger] front[i], relay);
            assert(is_identify_sent_to(events[i], relay));
        }
        if bootstrap_after(bootstrap_start(), relay, front).received_identify_from_relay {
            let i = choose|i: int|
                0 <= i < front.len() && is_identify_received_from(#[trigger] front[i], relay);
            assert(is_identify_received_from(events[i], relay));
        }
        if is_identify_sent_to(events.last(), relay) {
            assert(is_identify_sent_to(events[n], relay));
        }
        if is_identify_received_from(events.last(), relay) {
            assert(is_identify_received_from(events[n], relay));
        }
        if exists|i: int| 0 <= i < events.len() && is_identify_sent_to(#[trigger] events[i], relay) {
            let i = choose|i: int| 0 <= i < events.len() && is_identify_sent_to(#[trigger] events[i], relay);
            if i < n {
                assert(is_identify_sent_to(front[i], relay));
            }
        }
        if exists|i: int|
            0 <= i < events.len() && is_identify_received_from(#[trigger] events[i], relay) {
            let i = choose|i: int|
                0 <= i < events.len() && is_identify_received_from(#[trigger] events[i], relay);
            if i < n {
                assert(is_identify_received_from(front[i], relay));
            }
        }
    }
}

/// Whatever the order of the events, the event number `j` of a run from
/// the start asks to listen on the circuit locator exactly when it is a
/// report of the exchange of identity with the relay and, up to and with
/// it, our identity has gone out to the relay and the relay's has come in.
pub proof fn lemma_listen_follows_both_exchanges(relay: Seq<u8>, events: Seq<SwarmEvent>, j: int)
    requires
        0 <= j < events.len(),
    ensures
        listens_on_circuit(
            bootstrap_after(bootstrap_start(), relay, events.take(j)),
            relay,
            events[j],
        ) <==> {
            &&& is_identify_with(events[j], relay)
            &&& exists|i: int| 0 <= i <= j && is_identify_sent_to(#[trigger] events[i], relay)
            &&& exists|i: int| 0 <= i <= j && is_identify_received_from(#[trigger] events[i], relay)
        },
{
    let upto = events.take(j + 1);
    lemma_flags_record_history(relay, upto);
    assert(upto.drop_last() =~= events.take(j));
    assert(upto.last() == events[j]);
    assert(forall|i: int| 0 <= i <= j ==> upto[i] == events[i]);
    let after = bootstrap_after(bootstrap_start(), relay, upto);
    assert(after == bootstrap_next(
        bootstrap_after(bootstrap_start(), relay, events.take(j)),
        relay,
        events[j],
    ));
    if after.sent_identify_to_relay {
        let i = choose|i: int| 0 <= i < upto.len() && is_identify_sent_to(#[trigger] upto[i], relay);
        assert(is_identify_sent_to(events[i], relay));
    }
    if after.received_identify_from_relay {
        let i = choose|i: int|
            0 <= i < upto.len() && is_identify_received_from(#[trigger] upto[i], relay);
        assert(is_identify_received_from(events[i], relay));
    }
    if exists|i: int| 0 <= i <= j && is_identify_sent_to(#[trigger] events[i], relay) {
        let i = choose|i: int| 0 <= i <= j && is_identify_sent_to(#[trigger] events[i], relay);
        assert(is_identify_sent_to(upto[i], relay));
    }
    if exists|i: int| 0 <= i <= j && is_identify_received_from(#[trigger] events[i], relay) {
        let i = choose|i: int| 0 <= i <= j && is_identify_received_from(#[trigger] events[i], relay);
        assert(is_identify_received_from(upto[i], relay));
    }
}

/// What a producer may ask of the actor.
#[derive(Debug, Clone, PartialEq, Eq)]
pub enum SwarmCommand {
    Dial(Address),
    DialPeerId(PeerIdentity),
    BeginProviderRole(Vec<u8>),
    StopProviderRole(Vec<u8>),
    FindProviders(Vec<u8>),
    ListConnections,
    PutTestValue(String, String),
    GetTestValue(String),
    Sync(Command),
}

/// The one call into the engine that a command stands for.
#[derive(Debug, Clone, PartialEq, Eq)]
pub enum EngineCall {
    Dial(Address),
    DialByIdentity(PeerIdentity),
    StartProviding(Vec<u8>),
    StopProviding(Vec<u8>),
    GetProviders(Vec<u8>),
    ConnectedPeers,
    PutValue { document_id: String, key: String, value: String },
    GetValue { document_id: String, key: String },
    Sync(Command),
}

/// An engine call as a mathematical value.
pub enum EngineCallView {
    Dial(Seq<u8>),
    DialByIdentity(Seq<u8>),
    StartProviding(Seq<u8>),
    StopProviding(Seq<u8>),
    GetProviders(Seq<u8>),
    ConnectedPeers,
    PutValue { document_id: Seq<char>, key: Seq<char>, value: Seq<char> },
    GetValue { document_id: Seq<char>, key: Seq<char> },
    Sync(CommandView),
}

impl View for EngineCall {
    type V = EngineCallView;

    open spec fn view(&self) -> EngineCallView {
        match *self {
            EngineCall::Dial(a) => EngineCallView::Dial(a@),
            EngineCall::DialByIdentity(p) => EngineCallView::DialByIdentity(p@),
            EngineCall::StartProviding(k) => EngineCallView::StartProviding(k@),
            EngineCall::StopProviding(k) => EngineCallView::StopProviding(k@),
            EngineCall::GetProviders(k) => EngineCallView::GetProviders(k@),
            EngineCall::ConnectedPeers => EngineCallView::ConnectedPeers,
            EngineCall::PutValue { document_id, key, value } => EngineCallView::PutValue {
                document_id: document_id@,
                key: key@,
                value: value@,
            },
            EngineCall::GetValue { document_id, key } => EngineCallView::GetValue {
                document_id: document_id@,
                key: key@,
            },
            EngineCall::Sync(c) => EngineCallView::Sync(c@),
        }
    }
}

/// The name of the document that the test commands read and write.
pub open spec fn test_document() -> Seq<char> {
    "test"@
}

/// The engine call that a command stands for.
pub open spec fn engine_call_of(command: SwarmCommand) -> EngineCallView {
    match command {
        SwarmCommand::Dial(a) => EngineCallView::Dial(a@),
        SwarmCommand::DialPeerId(p) => EngineCallView::DialByIdentity(p@),
        SwarmCommand::BeginProviderRole(k) => EngineCallView::StartProviding(k@),
        SwarmCommand::StopProviderRole(k) => EngineCallView::StopProviding(k@),
        SwarmCommand::FindProviders(k) => EngineCallView::GetProviders(k@),
        SwarmCommand::ListConnections => EngineCallView::ConnectedPeers,
        SwarmCommand::PutTestValue(key, value) => EngineCallView::PutValue {
            document_id: test_document(),
            key: key@,
            value: value@,
        },
        SwarmCommand::GetTestValue(key) => EngineCallView::GetValue {
            document_id: test_document(),
            key: key@,
        },
        SwarmCommand::Sync(c) => EngineCallView::Sync(c@),
    }
}

/// What one turn of the actor's loop does with what its inlet gave.
#[derive(Debug, Clone, PartialEq, Eq)]
pub enum LoopStep {
    /// Make the call, take note of its outcome, and go on.
    Call(EngineCall),
    /// The inlet is closed: leave the loop.
    Exit,
}

impl SwarmManager {
    /// Decides one turn of the loop on the inlet's side. A command becomes
    /// the one engine call it stands for; a closed inlet ends the loop. The
    /// bootstrap state is not touched.
    pub fn handle_command(&self, command: Option<SwarmCommand>) -> (step: LoopStep)
        ensures
            command.is_none() <==> step is Exit,
            command matches Some(c) ==> step matches LoopStep::Call(call) && call@
                == engine_call_of(c),
    {
        match command {
            None => LoopStep::Exit,
            Some(SwarmCommand::Dial(a)) => LoopStep::Call(EngineCall::Dial(a)),
            Some(SwarmCommand::DialPeerId(p)) => LoopStep::Call(EngineCall::DialByIdentity(p)),
            Some(SwarmCommand::BeginProviderRole(k)) => LoopStep::Call(
                EngineCall::StartProviding(k),
            ),
            Some(SwarmCommand::StopProviderRole(k)) => LoopStep::Call(EngineCall::StopProviding(k)),
            Some(SwarmCommand::FindProviders(k)) => LoopStep::Call(EngineCall::GetProviders(k)),
            Some(SwarmCommand::ListConnections) => LoopStep::Call(EngineCall::ConnectedPeers),
            Some(SwarmCommand::PutTestValue(key, value)) => LoopStep::Call(
                EngineCall::PutValue { document_id: "test".to_owned(), key, value },
            ),
            Some(SwarmCommand::GetTestValue(key)) => LoopStep::Call(
                EngineCall::GetValue { document_id: "test".to_owned(), key },
            ),
            Some(SwarmCommand::Sync(c)) => LoopStep::Call(EngineCall::Sync(c)),
        }
    }
}

} // verus!
