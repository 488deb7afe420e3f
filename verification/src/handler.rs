//! The state machine of one connection that carries the sync protocol.

use crate::identity::{copy_bytes, PeerIdentity};
use crate::messages::{
    DocumentSyncMessage, DocumentSyncMessageView, Message, MessageView, OneOfmsg, RequestDocument,
    RequestDocumentView, encode, encode_message,
};
use crate::reader::{decode, decode_message};
use crate::wire::DecodeError;
use std::collections::VecDeque;
use vstd::prelude::*;

verus! {

/// An instruction of the application to the sync protocol.
#[derive(Debug, Clone, PartialEq, Eq)]
pub enum Command {
    StartSync { document_id: String, peer: PeerIdentity },
    SendChanges { document_id: String, changes: Vec<u8>, peer: PeerIdentity },
    BroadcastChanges { document_id: String, changes: Vec<u8> },
    RequestSync { document_id: String, peer: PeerIdentity },
}

/// A command as a mathematical value.
pub enum CommandView {
    StartSync { document_id: Seq<char>, peer: Seq<u8> },
    SendChanges { document_id: Seq<char>, changes: Seq<u8>, peer: Seq<u8> },
    BroadcastChanges { document_id: Seq<char>, changes: Seq<u8> },
    RequestSync { document_id: Seq<char>, peer: Seq<u8> },
}

impl View for Command {
    type V = CommandView;

    open spec fn view(&self) -> CommandView {
        match *self {
            Command::StartSync { document_id, peer } => CommandView::StartSync {
                document_id: document_id@,
                peer: peer@,
            },
            Command::SendChanges { document_id, changes, peer } => CommandView::SendChanges {
                document_id: document_id@,
                changes: changes@,
                peer: peer@,
            },
            Command::BroadcastChanges { document_id, changes } => CommandView::BroadcastChanges {
                document_id: document_id@,
                changes: changes@,
            },
            Command::RequestSync { document_id, peer } => CommandView::RequestSync {
                document_id: document_id@,
                peer: peer@,
            },
        }
    }
}

impl CommandView {
    /// The document that the command is about.
    pub open spec fn document(self) -> Seq<char> {
        match self {
            CommandView::StartSync { document_id, .. } => document_id,
            CommandView::SendChanges { document_id, .. } => document_id,
            CommandView::BroadcastChanges { document_id, .. } => document_id,
            CommandView::RequestSync { document_id, .. } => document_id,
        }
    }

    /// The peer that the command addresses; a broadcast addresses none.
    pub open spec fn target(self) -> Option<Seq<u8>> {
        match self {
            CommandView::StartSync { peer, .. } => Some(peer),
            CommandView::SendChanges { peer, .. } => Some(peer),
            CommandView::BroadcastChanges { .. } => None,
            CommandView::RequestSync { peer, .. } => Some(peer),
        }
    }
}

impl Command {
    /// A copy of the command.
    pub fn duplicate(&self) -> (r: Command)
        ensures
            r@ == self@,
    {
        match self {
            Command::StartSync { document_id, peer } => Command::StartSync {
                document_id: document_id.clone(),
                peer: peer.duplicate(),
            },
            Command::SendChanges { document_id, changes, peer } => Command::SendChanges {
                document_id: document_id.clone(),
                changes: copy_bytes(changes.as_slice()),
                peer: peer.duplicate(),
            },
            Command::BroadcastChanges { document_id, changes } => Command::BroadcastChanges {
                document_id: document_id.clone(),
                changes: copy_bytes(changes.as_slice()),
            },
            Command::RequestSync { document_id, peer } => Command::RequestSync {
                document_id: document_id.clone(),
                peer: peer.duplicate(),
            },
        }
    }
}

/// What the coordinator tells the handler of a connection.
#[derive(Debug, Clone, PartialEq, Eq)]
pub enum InEvent {
    DocumentChanged { document_id: String },
}

/// The values of a sequence, each as its view.
pub open spec fn views<T: View>(s: Seq<T>) -> Seq<T::V> {
    s.map_values(|x: T| x@)
}

/// How far the stream of a connection has come.
#[derive(Debug, Clone, Copy, PartialEq, Eq, Structural)]
pub enum HandlerState {
    /// No stream yet, and none asked for.
    Idle,
    /// A stream is being negotiated.
    AwaitingStream,
    /// The stream is open.
    Open,
}

/// What the engine tells the handler about its connection.
#[derive(Debug, Clone, Copy, PartialEq, Eq, Structural)]
pub enum ConnectionEvent {
    FullyNegotiatedInbound,
    FullyNegotiatedOutbound,
    DialUpgradeError,
    ListenUpgradeError,
    AddressChange,
    LocalProtocolsChange,
    RemoteProtocolsChange,
}

/// What the handler reports to the coordinator.
#[derive(Debug, Clone, PartialEq, Eq)]
pub enum HandlerEvent {
    /// The peer sent this message.
    Received(Message),
    /// The peer sent bytes that are no message.
    Invalid(DecodeError),
    /// The peer would not speak the protocol.
    NegotiationFailed,
}

/// A report of the handler as a mathematical value.
pub enum HandlerEventView {
    Received(MessageView),
    Invalid(DecodeError),
    NegotiationFailed,
}

impl View for HandlerEvent {
    type V = HandlerEventView;

    open spec fn view(&self) -> HandlerEventView {
        match *self {
            HandlerEvent::Received(m) => HandlerEventView::Received(m@),
            HandlerEvent::Invalid(e) => HandlerEventView::Invalid(e),
            HandlerEvent::NegotiationFailed => HandlerEventView::NegotiationFailed,
        }
    }
}

/// What a poll of the handler asks of its caller.
#[derive(Debug, Clone, PartialEq, Eq)]
pub enum ConnectionHandlerEvent {
    /// Nothing to do for now.
    Pending,
    /// Hand this report to the coordinator.
    NotifyBehaviour(HandlerEvent),
    /// Open a stream to the peer.
    OutboundSubstreamRequest,
    /// Write these bytes, one message, to the stream.
    Write(Vec<u8>),
}

/// The answer of a poll as a mathematical value.
pub enum ConnectionHandlerEventView {
    Pending,
    NotifyBehaviour(HandlerEventView),
    OutboundSubstreamRequest,
    Write(Seq<u8>),
}

impl View for ConnectionHandlerEvent {
    type V = ConnectionHandlerEventView;

    open spec fn view(&self) -> ConnectionHandlerEventView {
        match *self {
            ConnectionHandlerEvent::Pending => ConnectionHandlerEventView::Pending,
            ConnectionHandlerEvent::NotifyBehaviour(e) => ConnectionHandlerEventView::NotifyBehaviour(
                e@,
            ),
            ConnectionHandlerEvent::OutboundSubstreamRequest =>
                ConnectionHandlerEventView::OutboundSubstreamRequest,
            ConnectionHandlerEvent::Write(b) => ConnectionHandlerEventView::Write(b@),
        }
    }
}

/// The state of one connection: how far its stream has come, the reports
/// that wait for the coordinator, and the messages that wait for the stream,
/// each queue with the oldest entry first.
pub struct Handler {
    pub state: HandlerState,
    pub pending_events: VecDeque<HandlerEvent>,
    pub outbound: VecDeque<Message>,
}

/// A handler as a mathematical value.
pub struct HandlerView {
    pub state: HandlerState,
    pub events: Seq<HandlerEventView>,
    pub outbound: Seq<MessageView>,
}

impl View for Handler {
    type V = HandlerView;

    open spec fn view(&self) -> HandlerView {
        HandlerView {
            state: self.state,
            events: views(self.pending_events@),
            outbound: views(self.outbound@),
        }
    }
}

/// The message that a command puts on the wire: a start of sync is a first
/// round without changes, changes are a round that carries them, and a
/// request for sync asks for the document.
pub open spec fn wire_message_of(command: CommandView) -> MessageView {
    match command {
        CommandView::StartSync { document_id, .. } => MessageView::sync_message(
            DocumentSyncMessageView { id: document_id, message: Seq::empty() },
        ),
        CommandView::SendChanges { document_id, changes, .. } => MessageView::sync_message(
            DocumentSyncMessageView { id: document_id, message: changes },
        ),
        CommandView::BroadcastChanges { document_id, changes } => MessageView::sync_message(
            DocumentSyncMessageView { id: document_id, message: changes },
        ),
        CommandView::RequestSync { document_id, .. } => MessageView::request_document(
            RequestDocumentView { id: document_id },
        ),
    }
}

/// A handler that has nothing to do and no stream.
pub open spec fn fresh_handler() -> HandlerView {
    HandlerView { state: HandlerState::Idle, events: Seq::empty(), outbound: Seq::empty() }
}

/// The handler once `message` waits for the stream behind all that waits
/// already.
pub open spec fn handler_after_send(h: HandlerView, message: MessageView) -> HandlerView {
    HandlerView { outbound: h.outbound.push(message), ..h }
}

/// The handler once it has accepted `command`.
pub open spec fn handler_after_command(h: HandlerView, command: CommandView) -> HandlerView {
    handler_after_send(h, wire_message_of(command))
}

/// Whether the event says that the protocol could not be agreed on.
pub open spec fn is_negotiation_failure(event: ConnectionEvent) -> bool {
    event == ConnectionEvent::DialUpgradeError || event == ConnectionEvent::ListenUpgradeError
}

/// Whether the event says that a stream is open.
pub open spec fn is_stream_opened(event: ConnectionEvent) -> bool {
    event == ConnectionEvent::FullyNegotiatedInbound || event
        == ConnectionEvent::FullyNegotiatedOutbound
}

/// The handler once it has taken note of `event`: an opened stream makes it
/// `Open`; a failed negotiation is reported, and takes a handler that waits
/// for its stream back to `Idle`; what waits for the stream stays.
pub open spec fn handler_after_connection_event(h: HandlerView, event: ConnectionEvent)
    -> HandlerView {
    if is_stream_opened(event) {
        HandlerView { state: HandlerState::Open, ..h }
    } else if is_negotiation_failure(event) {
        HandlerView {
            state: if h.state == HandlerState::Open {
                HandlerState::Open
            } else {
                HandlerState::Idle
            },
            events: h.events.push(HandlerEventView::NegotiationFailed),
            ..h
        }
    } else {
        h
    }
}

/// What the handler reports of the bytes of one inbound message.
pub open spec fn report_of_bytes(bytes: Seq<u8>) -> HandlerEventView {
    match decode_message(bytes) {
        Ok(m) => HandlerEventView::Received(m),
        Err(e) => HandlerEventView::Invalid(e),
    }
}

/// The handler once the bytes of one inbound message have come in.
pub open spec fn handler_after_bytes(h: HandlerView, bytes: Seq<u8>) -> HandlerView {
    HandlerView { events: h.events.push(report_of_bytes(bytes)), ..h }
}

/// What a poll answers: the oldest report, if one waits; else a request for
/// a stream, if messages wait and none was asked for; else the bytes of the
/// oldest message, if the stream is open; else nothing.
pub open spec fn handler_poll_answer(h: HandlerView) -> ConnectionHandlerEventView {
    if h.events.len() > 0 {
        ConnectionHandlerEventView::NotifyBehaviour(h.events[0])
    } else if h.outbound.len() > 0 && h.state == HandlerState::Idle {
        ConnectionHandlerEventView::OutboundSubstreamRequest
    } else if h.outbound.len() > 0 && h.state == HandlerState::Open {
        ConnectionHandlerEventView::Write(encode_message(h.outbound[0]))
    } else {
        ConnectionHandlerEventView::Pending
    }
}

/// The handler after a poll: what the poll handed out no longer waits, and
/// a handler that asked for a stream waits for it.
pub open spec fn handler_after_poll(h: HandlerView) -> HandlerView {
    if h.events.len() > 0 {
        HandlerView { events: h.events.drop_first(), ..h }
    } else if h.outbound.len() > 0 && h.state == HandlerState::Idle {
        HandlerView { state: HandlerState::AwaitingStream, ..h }
    } else if h.outbound.len() > 0 && h.state == HandlerState::Open {
        HandlerView { outbound: h.outbound.drop_first(), ..h }
    } else {
        h
    }
}

impl Command {
    /// The message that the command puts on the wire.
    pub fn into_message(self) -> (r: Message)
        ensures
            r@ == wire_message_of(self@),
    {
        match self {
            Command::StartSync { document_id, peer: _ } => Message {
                msg: OneOfmsg::sync_message(
                    DocumentSyncMessage { id: document_id, message: Vec::new() },
                ),
            },
            Command::SendChanges { document_id, changes, peer: _ } => Message {
                msg: OneOfmsg::sync_message(DocumentSyncMessage { id: document_id, message: changes }),
            },
            Command::BroadcastChanges { document_id, changes } => Message {
                msg: OneOfmsg::sync_message(DocumentSyncMessage { id: document_id, message: changes }),
            },
            Command::RequestSync { document_id, peer: _ } => Message {
                msg: OneOfmsg::request_document(RequestDocument { id: document_id }),
            },
        }
    }
}

impl Handler {
    /// A handler that has nothing to do and no stream.
    pub fn new() -> (r: Handler)
        ensures
            r@ == fresh_handler(),
    {
        let r = Handler {
            state: HandlerState::Idle,
            pending_events: VecDeque::new(),
            outbound: VecDeque::new(),
        };
        assert(r@.events =~= Seq::empty());
        assert(r@.outbound =~= Seq::empty());
        r
    }

    /// Takes note that a document changed. The notice asks nothing of the
    /// connection: the handler stays as it is.
    pub fn on_behaviour_event(&mut self, event: InEvent)
        ensures
            final(self)@ == old(self)@,
    {
    }

    /// Accepts a command: its message waits for the stream behind all that
    /// waits already, whatever the state of the stream.
    pub fn on_command(&mut self, command: Command)
        ensures
            final(self)@ == handler_after_command(old(self)@, command@),
    {
        self.send(command.into_message());
    }

    /// Puts a message behind all that waits for the stream.
    pub fn send(&mut self, message: Message)
        ensures
            final(self)@ == handler_after_send(old(self)@, message@),
    {
        self.outbound.push_back(message);
        assert(final(self)@.outbound =~= old(self)@.outbound.push(message@));
    }

    /// Takes note of what the engine says about the connection.
    pub fn on_connection_event(&mut self, event: ConnectionEvent)
        ensures
            final(self)@ == handler_after_connection_event(old(self)@, event),
    {
        match event {
            ConnectionEvent::FullyNegotiatedInbound | ConnectionEvent::FullyNegotiatedOutbound => {
                self.state = HandlerState::Open;
            },
            ConnectionEvent::DialUpgradeError | ConnectionEvent::ListenUpgradeError => {
                match self.state {
                    HandlerState::Open => {},
                    _ => {
                        self.state = HandlerState::Idle;
                    },
                }
                self.pending_events.push_back(HandlerEvent::NegotiationFailed);
                assert(final(self)@.events =~= old(self)@.events.push(
                    HandlerEventView::NegotiationFailed,
                ));
            },
            _ => {},
        }
    }

    /// Takes the bytes of one inbound message: the message they hold, or
    /// the reason why they hold none, waits for the coordinator behind all
    /// that waits already.
    pub fn on_bytes_received(&mut self, bytes: &[u8])
        ensures
            final(self)@ == handler_after_bytes(old(self)@, bytes@),
    {
        let report = match decode(bytes) {
            Ok(m) => HandlerEvent::Received(m),
            Err(e) => HandlerEvent::Invalid(e),
        };
        assert(report@ == report_of_bytes(bytes@));
        self.pending_events.push_back(report);
        assert(final(self)@.events =~= old(self)@.events.push(report_of_bytes(bytes@)));
    }

    /// Whether a poll would hand out anything.
    pub fn has_work(&self) -> (r: bool)
        ensures
            r == !(handler_poll_answer(self@) is Pending),
    {
        if self.pending_events.len() > 0 {
            return true;
        }
        if self.outbound.len() == 0 {
            return false;
        }
        match self.state {
            HandlerState::AwaitingStream => false,
            _ => true,
        }
    }

    /// Says what is to be done next for this connection, and takes it off
    /// the handler's queues. Never waits.
    pub fn poll(&mut self) -> (r: ConnectionHandlerEvent)
        ensures
            r@ == handler_poll_answer(old(self)@),
            final(self)@ == handler_after_poll(old(self)@),
    {
        if self.pending_events.len() > 0 {
            let report = self.pending_events.pop_front();
            assert(final(self)@.events =~= old(self)@.events.drop_first());
            match report {
                Some(e) => {
                    return ConnectionHandlerEvent::NotifyBehaviour(e);
                },
                None => {
                    return ConnectionHandlerEvent::Pending;
                },
            }
        }
        if self.outbound.len() == 0 {
            return ConnectionHandlerEvent::Pending;
        }
        match self.state {
            HandlerState::Idle => {
                self.state = HandlerState::AwaitingStream;
                ConnectionHandlerEvent::OutboundSubstreamRequest
            },
            HandlerState::AwaitingStream => ConnectionHandlerEvent::Pending,
            HandlerState::Open => {
                let message = self.outbound.pop_front();
                assert(final(self)@.outbound =~= old(self)@.outbound.drop_first());
                match message {
                    Some(m) => ConnectionHandlerEvent::Write(encode(&m)),
                    None => ConnectionHandlerEvent::Pending,
                }
            },
        }
    }
}

/// The handler once it has accepted the commands `commands`, one after
/// another.
pub open spec fn handler_after_commands(h: HandlerView, commands: Seq<CommandView>) -> HandlerView
    decreases commands.len(),
{
    if commands.len() == 0 {
        h
    } else {
        handler_after_command(
            handler_after_commands(h, commands.drop_last()),
            commands.last(),
        )
    }
}

/// The answers of `n` polls, one after another.
pub open spec fn handler_poll_answers(h: HandlerView, n: nat) -> Seq<ConnectionHandlerEventView>
    decreases n,
{
    if n == 0 {
        Seq::empty()
    } else {
        seq![handler_poll_answer(h)] + handler_poll_answers(handler_after_poll(h), (n - 1) as nat)
    }
}

/// The handler after `n` polls, one after another.
pub open spec fn handler_after_polls(h: HandlerView, n: nat) -> HandlerView
    decreases n,
{
    if n == 0 {
        h
    } else {
        handler_after_polls(handler_after_poll(h), (n - 1) as nat)
    }
}

/// What an open handler owes its caller: each report that waits, then the
/// bytes of each message that waits, both in the order in which they came.
pub open spec fn handler_owes(h: HandlerView) -> Seq<ConnectionHandlerEventView> {
    h.events.map_values(|e: HandlerEventView| ConnectionHandlerEventView::NotifyBehaviour(e))
        + h.outbound.map_values(
        |m: MessageView| ConnectionHandlerEventView::Write(encode_message(m)),
    )
}

/// Accepting commands puts their messages, in the order of the commands,
/// behind what waits for the stream, and changes nothing else.
pub proof fn lemma_commands_wait_in_order(h: HandlerView, commands: Seq<CommandView>)
    ensures
        handler_after_commands(h, commands) == (HandlerView {
            outbound: h.outbound + commands.map_values(|c: CommandView| wire_message_of(c)),
            ..h
        }),
    decreases commands.len(),
{
    let wire = |c: CommandView| wire_message_of(c);
    if commands.len() == 0 {
        assert(h.outbound + commands.map_values(wire) =~= h.outbound);
    } else {
        lemma_commands_wait_in_order(h, commands.drop_last());
        assert((h.outbound + commands.drop_last().map_values(wire)).push(
            wire_message_of(commands.last()),
        ) =~= h.outbound + commands.map_values(wire));
    }
}

/// While the stream is not open, a poll hands out no message and leaves
/// every message waiting.
pub proof fn lemma_poll_before_open_keeps_messages(h: HandlerView)
    requires
        h.state != HandlerState::Open,
    ensures
        !(handler_poll_answer(h) is Write),
        handler_after_poll(h).outbound == h.outbound,
        handler_after_poll(h).state != HandlerState::Open,
{
}

/// An open handler hands out all that it owes, each once and in order, in
/// as many polls as there are reports and messages waiting; after that
/// nothing waits and a poll answers `Pending`.
pub proof fn lemma_open_handler_drains(h: HandlerView)
    requires
        h.state == HandlerState::Open,
    ensures
        handler_poll_answers(h, h.events.len() + h.outbound.len()) == handler_owes(h),
        handler_after_polls(h, h.events.len() + h.outbound.len()) == (HandlerView {
            state: HandlerState::Open,
            events: Seq::empty(),
            outbound: Seq::empty(),
        }),
        handler_poll_answer(handler_after_polls(h, h.events.len() + h.outbound.len()))
            == ConnectionHandlerEventView::Pending,
    decreases h.events.len() + h.outbound.len(),
{
    let n = h.events.len() + h.outbound.len();
    if n == 0 {
        assert(handler_owes(h) =~= Seq::empty());
        assert(h.events =~= Seq::empty());
        assert(h.outbound =~= Seq::empty());
    } else {
        let next = handler_after_poll(h);
        lemma_open_handler_drains(next);
        assert(next.events.len() + next.outbound.len() == n - 1);
        assert(handler_owes(h) =~= seq![handler_poll_answer(h)] + handler_owes(next));
    }
}

/// Delivery in order, each command once: whatever state a handler is in,
/// once it has accepted the commands `commands` and then learnt that its
/// stream is open, its polls hand out the reports that waited, then the
/// bytes of the messages that waited before, then the bytes of the message
/// of each of the commands, in the order in which they were accepted; and
/// after that a poll answers `Pending`.
pub proof fn lemma_commands_delivered_in_order(
    h: HandlerView,
    commands: Seq<CommandView>,
    opened: ConnectionEvent,
)
    requires
        is_stream_opened(opened),
    ensures
        ({
            let open = handler_after_connection_event(handler_after_commands(h, commands), opened);
            let n = h.events.len() + h.outbound.len() + commands.len();
            &&& handler_poll_answers(open, n) == handler_owes(h) + commands.map_values(
                |c: CommandView|
                    ConnectionHandlerEventView::Write(encode_message(wire_message_of(c))),
            )
            &&& handler_poll_answer(handler_after_polls(open, n))
                == ConnectionHandlerEventView::Pending
        }),
{
    let open = handler_after_connection_event(handler_after_commands(h, commands), opened);
    lemma_commands_wait_in_order(h, commands);
    lemma_open_handler_drains(open);
    assert(handler_owes(open) =~= handler_owes(h) + commands.map_values(
        |c: CommandView| ConnectionHandlerEventView::Write(encode_message(wire_message_of(c))),
    ));
}

} // verus!
