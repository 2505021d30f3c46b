//! The scene application's command and event queues and the decisions of its
//! websocket links (network, IPC and RPC): each takes the socket events and
//! commands as plain values and says what to send, while the sockets
//! themselves live with the caller.
use vstd::prelude::*;
use vstd::string::StringExecFns;

use crate::scene::{
    CAMERA, Context, EntityId, GLOBAL_TRANSFORM, LINES, LOCAL_TRANSFORM, NAME, QUADS, grew_by_one, has_room,
    is_live, keeps_entities, lemma_room_step, lemma_spawn_one_grows, name_component, parent_component,
    query_entities, room_for, set_name, spawn_entities, spec_component_mask, spec_query_entities, table_rows,
};

verus! {

/// A message over the RPC link.
#[derive(Clone, Debug)]
pub enum RpcMessage {
    Empty,
    Text { string: String },
    Binary { bytes: Vec<u8> },
}

/// A command for the RPC link.
#[derive(Clone, Debug)]
pub enum RpcCommand {
    Empty,
    Connect { url: String },
    Disconnect,
    Send { message: RpcMessage },
}

/// An RPC failure.
#[derive(Clone, Debug)]
pub enum RpcError {
    Empty,
    ConnectionFailed { url: String },
    Server { error: String },
    SendFailed { message: RpcMessage },
}

/// Something that happened on the RPC link.
#[derive(Clone, Debug)]
pub enum RpcEvent {
    Empty,
    ConnectionAttemptSucceeded,
    ConnectionAttemptStarted,
    Disconnected,
    Message { message: RpcMessage },
    Error { error: RpcError },
}

/// A message over the network link.
#[derive(Clone, Debug)]
pub enum NetworkMessage {
    Text { string: String },
    Binary { bytes: Vec<u8> },
}

/// A command for the network link.
#[derive(Clone, Debug)]
pub enum NetworkCommand {
    Connect { url: String },
    Disconnect,
    Send { message: NetworkMessage },
}

/// A network failure.
#[derive(Clone, Debug)]
pub enum NetworkError {
    ConnectionFailed { url: String },
    Server { error: String },
    SendFailed { message: NetworkMessage },
}

/// Something that happened on the network link.
#[derive(Clone, Debug)]
pub enum NetworkEvent {
    ConnectionAttemptSucceeded,
    ConnectionAttemptStarted,
    Disconnected,
    Message { message: NetworkMessage },
    Error { error: NetworkError },
}

/// A message over the IPC link.
#[derive(Clone, Debug)]
pub enum IpcMessage {
    Text { string: String },
    Binary { bytes: Vec<u8> },
}

/// A command for the IPC link.
#[derive(Clone, Debug)]
pub enum IpcCommand {
    Connect { url: String },
    Disconnect,
    Send { message: IpcMessage },
}

/// An IPC command with the id it is answered under.
#[derive(Clone, Debug)]
pub struct IpcCommandMessage {
    pub id: u64,
    pub command: IpcCommand,
}

/// An IPC failure.
#[derive(Clone, Debug)]
pub enum IpcError {
    ConnectionFailed { url: String },
    Server { error: String },
    SendFailed { message: IpcMessage },
}

/// Something that happened on the IPC link.
#[derive(Clone, Debug)]
pub enum IpcEvent {
    ConnectionAttemptSucceeded,
    ConnectionAttemptStarted,
    Disconnected,
    Message { message: IpcMessage },
    Error { error: IpcError },
}

/// The answer to an IPC command.
#[derive(Clone, Debug)]
pub struct IpcResponse {
    pub id: u64,
    pub result: IpcResult,
}

/// Whether an IPC command was taken.
#[derive(Clone, Debug)]
pub enum IpcResult {
    Success,
    Error { message: String },
}

/// A websocket link's state change, as the RPC link reports it.
#[derive(Clone, Debug)]
pub enum WebsocketEvent {
    Connected,
    Disconnected,
    Message { message: String },
    Error { error: String },
}

/// A request for information about the scene.
#[derive(Clone, Copy, Debug, PartialEq, Eq, Structural)]
pub enum RequestCommand {
    Empty,
    RequestCameraEntities,
}

/// A command for the scene backend.
#[derive(Clone, Debug)]
pub enum ServerCommand {
    Connect { url: String },
}

/// Output from the engine: what happened, and for events caused by a
/// command, the id of that command.
#[derive(Clone, Debug)]
pub enum Event {
    Empty,
    EntityCreated { entity_id: EntityId, source: Option<u64> },
    CameraReport { cameras: Vec<EntityId>, source: Option<u64> },
    Rpc { event: RpcEvent, source: Option<u64> },
    Ipc { event: IpcEvent, source: Option<u64> },
    Network { event: NetworkEvent },
    Websocket { event: WebsocketEvent },
}

/// The events waiting to be processed, oldest first.
#[derive(Debug)]
pub struct EventQueues {
    pub events: Vec<Event>,
}

/// What a websocket receiver hands over.
#[derive(Clone, Debug)]
pub enum SocketEvent {
    Opened,
    Text(String),
    Binary(Vec<u8>),
    Error(String),
    Closed,
    /// A ping, a pong or an unknown frame.
    Other,
}

/// Queues an event.
pub fn push_event(queues: &mut EventQueues, event: Event)
    ensures
        final(queues).events@ == old(queues).events@.push(event),
{
    queues.events.push(event);
}

/// Takes every queued event, oldest first, leaving the queue empty.
pub fn process_events_system(queues: &mut EventQueues) -> (r: Vec<Event>)
    ensures
        r@ == old(queues).events@,
        final(queues).events@.len() == 0,
{
    let mut taken: Vec<Event> = Vec::new();
    std::mem::swap(&mut taken, &mut queues.events);
    taken
}

/// An event tagged with the command that caused it; events that carry no
/// source stay as they are.
pub open spec fn with_source(event: Event, source: u64) -> Event {
    match event {
        Event::EntityCreated { entity_id, .. } => Event::EntityCreated { entity_id, source: Some(source) },
        Event::CameraReport { cameras, .. } => Event::CameraReport { cameras, source: Some(source) },
        Event::Rpc { event, .. } => Event::Rpc { event, source: Some(source) },
        Event::Ipc { event, .. } => Event::Ipc { event, source: Some(source) },
        other => other,
    }
}

/// Queues an event tagged with the command that caused it.
pub fn push_event_with_source(queues: &mut EventQueues, event: Event, source: u64)
    ensures
        final(queues).events@ == old(queues).events@.push(with_source(event, source)),
{
    let tagged = match event {
        Event::EntityCreated { entity_id, .. } => Event::EntityCreated { entity_id, source: Some(source) },
        Event::CameraReport { cameras, .. } => Event::CameraReport { cameras, source: Some(source) },
        Event::Rpc { event, .. } => Event::Rpc { event, source: Some(source) },
        Event::Ipc { event, .. } => Event::Ipc { event, source: Some(source) },
        other => other,
    };
    push_event(queues, tagged);
}

/// Whether the interface takes the keyboard: some element wants keyboard or
/// pointer input. Without an interface nothing does.
pub fn should_capture_keyboard(wants: Option<(bool, bool)>) -> (r: bool)
    ensures
        r == match wants {
            Some((keyboard, pointer)) => keyboard || pointer,
            None => false,
        },
{
    match wants {
        Some((keyboard, pointer)) => keyboard || pointer,
        None => false,
    }
}

/// The network link: whether it can send and whether it is connected, and
/// the commands waiting for it.
#[derive(Debug)]
pub struct Network {
    pub has_sender: bool,
    pub is_connected: bool,
    pub commands: Vec<NetworkCommand>,
}

/// What the network link needs from the socket layer.
#[derive(Debug)]
pub enum NetworkAction {
    Nothing,
    /// Open a connection to `ws://<url>`.
    Connect { url: String },
    /// Send a message over the open connection.
    Send { message: NetworkMessage },
    /// Drop the sending half.
    DropSender,
}

/// The events a socket event on the network link queues, and its effect on
/// the connection flag.
pub open spec fn network_reaction(event: SocketEvent) -> Seq<Event> {
    match event {
        SocketEvent::Opened => seq![Event::Network { event: NetworkEvent::ConnectionAttemptStarted }],
        SocketEvent::Text(text) => seq![
            Event::Network { event: NetworkEvent::Message { message: NetworkMessage::Text { string: text } } },
        ],
        SocketEvent::Binary(bytes) => seq![
            Event::Network { event: NetworkEvent::Message { message: NetworkMessage::Binary { bytes } } },
        ],
        SocketEvent::Error(error) => seq![
            Event::Network { event: NetworkEvent::Error { error: NetworkError::Server { error } } },
        ],
        SocketEvent::Closed => seq![Event::Network { event: NetworkEvent::Disconnected }],
        SocketEvent::Other => seq![],
    }
}

/// The connection flag after a socket event: set on open, cleared on an
/// error or a close, else kept.
pub open spec fn connected_after(connected: bool, event: SocketEvent) -> bool {
    match event {
        SocketEvent::Opened => true,
        SocketEvent::Error(_) => false,
        SocketEvent::Closed => false,
        _ => connected,
    }
}

/// The events a run of socket events on the network link queues, in order.
pub open spec fn network_reactions(events: Seq<SocketEvent>) -> Seq<Event>
    decreases events.len(),
{
    if events.len() == 0 {
        seq![]
    } else {
        network_reactions(events.drop_last()) + network_reaction(events.last())
    }
}

/// The connection flag after a run of socket events.
pub open spec fn connected_after_all(connected: bool, events: Seq<SocketEvent>) -> bool
    decreases events.len(),
{
    if events.len() == 0 {
        connected
    } else {
        connected_after(connected_after_all(connected, events.drop_last()), events.last())
    }
}

/// Handles one socket event of the network link.
fn receive_network_event(network: &mut Network, queues: &mut EventQueues, event: SocketEvent)
    ensures
        final(queues).events@ == old(queues).events@ + network_reaction(event),
        final(network).is_connected == connected_after(old(network).is_connected, event),
        final(network).has_sender == old(network).has_sender,
        final(network).commands@ == old(network).commands@,
{
    let ghost before = queues.events@;
    let ghost e = event;
    match event {
        SocketEvent::Opened => {
            network.is_connected = true;
            push_event(queues, Event::Network { event: NetworkEvent::ConnectionAttemptStarted });
        },
        SocketEvent::Text(text) => {
            push_event(
                queues,
                Event::Network { event: NetworkEvent::Message { message: NetworkMessage::Text { string: text } } },
            );
        },
        SocketEvent::Binary(bytes) => {
            push_event(
                queues,
                Event::Network { event: NetworkEvent::Message { message: NetworkMessage::Binary { bytes } } },
            );
        },
        SocketEvent::Error(error) => {
            network.is_connected = false;
            push_event(queues, Event::Network { event: NetworkEvent::Error { error: NetworkError::Server { error } } });
        },
        SocketEvent::Closed => {
            network.is_connected = false;
            push_event(queues, Event::Network { event: NetworkEvent::Disconnected });
        },
        SocketEvent::Other => {},
    }
    assert(queues.events@ =~= before + network_reaction(e));
}

/// Handles the socket events the network link received, in order.
pub fn receive_network_events_system(network: &mut Network, queues: &mut EventQueues, incoming: Vec<SocketEvent>)
    ensures
        final(queues).events@ == old(queues).events@ + network_reactions(incoming@),
        final(network).is_connected == connected_after_all(old(network).is_connected, incoming@),
        final(network).has_sender == old(network).has_sender,
        final(network).commands@ == old(network).commands@,
{
    let ghost all = incoming@;
    let mut rest = incoming;
    let mut i: usize = 0;
    let n = rest.len();
    while i < n
        invariant
            i <= n,
            n == all.len(),
            rest@ == all.skip(i as int),
            queues.events@ == old(queues).events@ + network_reactions(all.take(i as int)),
            network.is_connected == connected_after_all(old(network).is_connected, all.take(i as int)),
            network.has_sender == old(network).has_sender,
            network.commands@ == old(network).commands@,
        decreases n - i,
    {
        assert(all.take(i + 1).drop_last() =~= all.take(i as int));
        assert(rest@[0] == all[i as int]);
        let event = rest.remove(0);
        assert(rest@ =~= all.skip(i + 1));
        receive_network_event(network, queues, event);
        assert(old(queues).events@ + network_reactions(all.take(i as int)) + network_reaction(all[i as int])
            =~= old(queues).events@ + network_reactions(all.take(i + 1)));
        i += 1;
    }
    assert(all.take(n as int) =~= all);
}

/// Decides what a network command needs: a connection to open, a message to
/// send, or the sending half to drop. A send without a connection queues a
/// send failure instead.
pub fn execute_network_command(network: &mut Network, queues: &mut EventQueues, command: NetworkCommand) -> (r: NetworkAction)
    ensures
        final(network).commands@ == old(network).commands@,
        match command {
            NetworkCommand::Connect { url } => r == (NetworkAction::Connect { url })
                && final(network).has_sender == old(network).has_sender
                && final(network).is_connected == old(network).is_connected
                && final(queues).events@ == old(queues).events@,
            NetworkCommand::Disconnect => r is DropSender && !final(network).has_sender
                && !final(network).is_connected && final(queues).events@ == old(queues).events@,
            NetworkCommand::Send { message } => final(network).has_sender == old(network).has_sender
                && final(network).is_connected == old(network).is_connected && if old(network).has_sender {
                r == (NetworkAction::Send { message }) && final(queues).events@ == old(queues).events@
            } else {
                r is Nothing && final(queues).events@ == old(queues).events@.push(
                    Event::Network { event: NetworkEvent::Error { error: NetworkError::SendFailed { message } } },
                )
            },
        },
{
    match command {
        NetworkCommand::Connect { url } => NetworkAction::Connect { url },
        NetworkCommand::Disconnect => {
            network.is_connected = false;
            network.has_sender = false;
            NetworkAction::DropSender
        },
        NetworkCommand::Send { message } => {
            if network.has_sender {
                NetworkAction::Send { message }
            } else {
                push_event(
                    queues,
                    Event::Network { event: NetworkEvent::Error { error: NetworkError::SendFailed { message } } },
                );
                NetworkAction::Nothing
            }
        },
    }
}

/// Records how opening a network connection went: on success the link can
/// send and reports the attempt, else it reports the failure.
pub fn network_connect_outcome(network: &mut Network, queues: &mut EventQueues, url: String, opened: bool)
    ensures
        final(network).has_sender == (old(network).has_sender || opened),
        final(network).is_connected == old(network).is_connected,
        final(network).commands@ == old(network).commands@,
        opened ==> final(queues).events@ == old(queues).events@.push(
            Event::Network { event: NetworkEvent::ConnectionAttemptStarted },
        ),
        !opened ==> final(queues).events@ == old(queues).events@.push(
            Event::Network { event: NetworkEvent::Error { error: NetworkError::ConnectionFailed { url } } },
        ),
{
    if opened {
        network.has_sender = true;
        push_event(queues, Event::Network { event: NetworkEvent::ConnectionAttemptStarted });
    } else {
        push_event(queues, Event::Network { event: NetworkEvent::Error { error: NetworkError::ConnectionFailed { url } } });
    }
}


/// The IPC link: whether it can send and is connected, and the id the next
/// command gets.
#[derive(Debug)]
pub struct Ipc {
    pub has_sender: bool,
    pub is_connected: bool,
    pub next_command_id: u64,
}

/// What the IPC link needs from the socket layer.
#[derive(Debug)]
pub enum IpcAction {
    Nothing,
    /// Open a connection to `ws://<url>` for the command with this id.
    Connect { url: String, command_id: u64 },
    /// Send a command frame over the open connection.
    Send { frame: IpcCommandMessage },
    /// Drop the sending half.
    DropSender,
}

/// The id after another: one more, wrapping around.
pub open spec fn next_id(id: u64) -> u64 {
    if id == u64::MAX {
        0
    } else {
        (id + 1) as u64
    }
}

/// Numbers an IPC command and decides what it needs. A send without a
/// connection queues a send failure for that command instead.
pub fn execute_ipc_command(ipc: &mut Ipc, queues: &mut EventQueues, command: IpcCommand) -> (r: IpcAction)
    ensures
        final(ipc).next_command_id == next_id(old(ipc).next_command_id),
        match command {
            IpcCommand::Connect { url } => r == (IpcAction::Connect { url, command_id: old(ipc).next_command_id })
                && final(ipc).has_sender == old(ipc).has_sender && final(ipc).is_connected == old(ipc).is_connected
                && final(queues).events@ == old(queues).events@,
            IpcCommand::Disconnect => r is DropSender && !final(ipc).has_sender && !final(ipc).is_connected
                && final(queues).events@ == old(queues).events@,
            IpcCommand::Send { message } => final(ipc).has_sender == old(ipc).has_sender
                && final(ipc).is_connected == old(ipc).is_connected && if old(ipc).has_sender {
                &&& r == (IpcAction::Send {
                    frame: IpcCommandMessage {
                        id: old(ipc).next_command_id,
                        command: IpcCommand::Send { message },
                    },
                })
                &&& final(queues).events@ == old(queues).events@
            } else {
                &&& r is Nothing
                &&& final(queues).events@ == old(queues).events@.push(
                    Event::Ipc {
                        event: IpcEvent::Error { error: IpcError::SendFailed { message } },
                        source: Some(old(ipc).next_command_id),
                    },
                )
            },
        },
{
    let command_id = ipc.next_command_id;
    ipc.next_command_id = if command_id == u64::MAX {
        0
    } else {
        command_id + 1
    };
    match command {
        IpcCommand::Connect { url } => IpcAction::Connect { url, command_id },
        IpcCommand::Disconnect => {
            ipc.is_connected = false;
            ipc.has_sender = false;
            IpcAction::DropSender
        },
        IpcCommand::Send { message } => {
            if ipc.has_sender {
                IpcAction::Send { frame: IpcCommandMessage { id: command_id, command: IpcCommand::Send { message } } }
            } else {
                push_event(
                    queues,
                    Event::Ipc {
                        event: IpcEvent::Error { error: IpcError::SendFailed { message } },
                        source: Some(command_id),
                    },
                );
                IpcAction::Nothing
            }
        },
    }
}

/// Records how opening an IPC connection went for a command.
pub fn ipc_connect_outcome(ipc: &mut Ipc, queues: &mut EventQueues, url: String, command_id: u64, opened: bool)
    ensures
        final(ipc).has_sender == (old(ipc).has_sender || opened),
        final(ipc).is_connected == old(ipc).is_connected,
        final(ipc).next_command_id == old(ipc).next_command_id,
        opened ==> final(queues).events@ == old(queues).events@.push(
            Event::Ipc { event: IpcEvent::ConnectionAttemptStarted, source: Some(command_id) },
        ),
        !opened ==> final(queues).events@ == old(queues).events@.push(
            Event::Ipc {
                event: IpcEvent::Error { error: IpcError::ConnectionFailed { url } },
                source: Some(command_id),
            },
        ),
{
    if opened {
        ipc.has_sender = true;
        push_event(queues, Event::Ipc { event: IpcEvent::ConnectionAttemptStarted, source: Some(command_id) });
    } else {
        push_event(
            queues,
            Event::Ipc { event: IpcEvent::Error { error: IpcError::ConnectionFailed { url } }, source: Some(command_id) },
        );
    }
}

/// Records that a command frame could not be written out.
pub fn ipc_send_failed(queues: &mut EventQueues, message: IpcMessage, command_id: u64)
    ensures
        final(queues).events@ == old(queues).events@.push(
            Event::Ipc { event: IpcEvent::Error { error: IpcError::SendFailed { message } }, source: Some(command_id) },
        ),
{
    push_event(
        queues,
        Event::Ipc { event: IpcEvent::Error { error: IpcError::SendFailed { message } }, source: Some(command_id) },
    );
}

/// The event a socket event on the IPC link queues.
pub open spec fn ipc_reaction(event: SocketEvent) -> Seq<Event> {
    match event {
        SocketEvent::Opened => seq![Event::Ipc { event: IpcEvent::ConnectionAttemptStarted, source: None }],
        SocketEvent::Text(text) => seq![
            Event::Ipc { event: IpcEvent::Message { message: IpcMessage::Text { string: text } }, source: None },
        ],
        SocketEvent::Binary(bytes) => seq![
            Event::Ipc { event: IpcEvent::Message { message: IpcMessage::Binary { bytes } }, source: None },
        ],
        SocketEvent::Error(error) => seq![
            Event::Ipc { event: IpcEvent::Error { error: IpcError::Server { error } }, source: None },
        ],
        SocketEvent::Closed => seq![Event::Ipc { event: IpcEvent::Disconnected, source: None }],
        SocketEvent::Other => seq![],
    }
}

/// The events a run of socket events on the IPC link queues, in order.
pub open spec fn ipc_reactions(events: Seq<SocketEvent>) -> Seq<Event>
    decreases events.len(),
{
    if events.len() == 0 {
        seq![]
    } else {
        ipc_reactions(events.drop_last()) + ipc_reaction(events.last())
    }
}

/// Handles one socket event of the IPC link.
fn receive_ipc_event(ipc: &mut Ipc, queues: &mut EventQueues, event: SocketEvent)
    ensures
        final(queues).events@ == old(queues).events@ + ipc_reaction(event),
        final(ipc).is_connected == connected_after(old(ipc).is_connected, event),
        final(ipc).has_sender == old(ipc).has_sender,
        final(ipc).next_command_id == old(ipc).next_command_id,
{
    let ghost before = queues.events@;
    let ghost e = event;
    match event {
        SocketEvent::Opened => {
            ipc.is_connected = true;
            push_event(queues, Event::Ipc { event: IpcEvent::ConnectionAttemptStarted, source: None });
        },
        SocketEvent::Text(text) => {
            push_event(
                queues,
                Event::Ipc { event: IpcEvent::Message { message: IpcMessage::Text { string: text } }, source: None },
            );
        },
        SocketEvent::Binary(bytes) => {
            push_event(
                queues,
                Event::Ipc { event: IpcEvent::Message { message: IpcMessage::Binary { bytes } }, source: None },
            );
        },
        SocketEvent::Error(error) => {
            ipc.is_connected = false;
            push_event(queues, Event::Ipc { event: IpcEvent::Error { error: IpcError::Server { error } }, source: None });
        },
        SocketEvent::Closed => {
            ipc.is_connected = false;
            push_event(queues, Event::Ipc { event: IpcEvent::Disconnected, source: None });
        },
        SocketEvent::Other => {},
    }
    assert(queues.events@ =~= before + ipc_reaction(e));
}

/// Handles the socket events the IPC link received, in order.
pub fn receive_ipc_events_system(ipc: &mut Ipc, queues: &mut EventQueues, incoming: Vec<SocketEvent>)
    ensures
        final(queues).events@ == old(queues).events@ + ipc_reactions(incoming@),
        final(ipc).is_connected == connected_after_all(old(ipc).is_connected, incoming@),
        final(ipc).has_sender == old(ipc).has_sender,
        final(ipc).next_command_id == old(ipc).next_command_id,
{
    let ghost all = incoming@;
    let mut rest = incoming;
    let mut i: usize = 0;
    let n = rest.len();
    while i < n
        invariant
            i <= n,
            n == all.len(),
            rest@ == all.skip(i as int),
            queues.events@ == old(queues).events@ + ipc_reactions(all.take(i as int)),
            ipc.is_connected == connected_after_all(old(ipc).is_connected, all.take(i as int)),
            ipc.has_sender == old(ipc).has_sender,
            ipc.next_command_id == old(ipc).next_command_id,
        decreases n - i,
    {
        assert(all.take(i + 1).drop_last() =~= all.take(i as int));
        assert(rest@[0] == all[i as int]);
        let event = rest.remove(0);
        assert(rest@ =~= all.skip(i + 1));
        receive_ipc_event(ipc, queues, event);
        assert(old(queues).events@ + ipc_reactions(all.take(i as int)) + ipc_reaction(all[i as int])
            =~= old(queues).events@ + ipc_reactions(all.take(i + 1)));
        i += 1;
    }
    assert(all.take(n as int) =~= all);
}

/// Queues the commands that arrived over IPC, in order.
pub fn process_ipc_commands_system<C>(commands: &mut Vec<C>, received: Vec<C>)
    ensures
        final(commands)@ == old(commands)@ + received@,
{
    let ghost all = received@;
    let mut rest = received;
    let mut i: usize = 0;
    let n = rest.len();
    while i < n
        invariant
            i <= n,
            n == all.len(),
            rest@ == all.skip(i as int),
            commands@ == old(commands)@ + all.take(i as int),
        decreases n - i,
    {
        assert(rest@[0] == all[i as int]);
        let command = rest.remove(0);
        assert(rest@ =~= all.skip(i + 1));
        commands.push(command);
        assert(commands@ =~= old(commands)@ + all.take(i + 1));
        i += 1;
    }
    assert(all.take(n as int) =~= all);
}

/// The message for a command the backend could not pass on.
pub open spec fn forward_failed_message() -> Seq<char> {
    "Failed to forward command"@
}

/// Answers a command the IPC backend received, under the next response id:
/// success when it was passed on, else an error.
pub fn ipc_response(next_response_id: &mut u64, forwarded: bool) -> (r: IpcResponse)
    requires
        *old(next_response_id) < u64::MAX,
    ensures
        r.id == *old(next_response_id),
        *final(next_response_id) == *old(next_response_id) + 1,
        forwarded ==> r.result is Success,
        !forwarded ==> (r.result matches IpcResult::Error { message } && message@ == forward_failed_message()),
{
    let id = *next_response_id;
    *next_response_id = id + 1;
    let result = if forwarded {
        IpcResult::Success
    } else {
        IpcResult::Error { message: String::from_str("Failed to forward command") }
    };
    IpcResponse { id, result }
}

/// Answers a frame the IPC backend could not read as a command: id zero and
/// the reader's complaint.
pub fn ipc_parse_failure(detail: &str) -> (r: IpcResponse)
    ensures
        r.id == 0,
        r.result matches IpcResult::Error { message } && message@ == "Failed to parse command: "@ + detail@,
{
    let mut message = String::from_str("Failed to parse command: ");
    message.append(detail);
    IpcResponse { id: 0, result: IpcResult::Error { message } }
}


/// The model of a [`WebsocketEvent`].
pub enum WebsocketView {
    Connected,
    Disconnected,
    Message(Seq<char>),
    Error(Seq<char>),
}

/// The model of an event, when it is a websocket event.
pub open spec fn websocket_view(e: Event) -> Option<WebsocketView> {
    match e {
        Event::Websocket { event } => Some(
            match event {
                WebsocketEvent::Connected => WebsocketView::Connected,
                WebsocketEvent::Disconnected => WebsocketView::Disconnected,
                WebsocketEvent::Message { message } => WebsocketView::Message(message@),
                WebsocketEvent::Error { error } => WebsocketView::Error(error@),
            },
        ),
        _ => None,
    }
}

/// Whether `after` is `before` with websocket events of the given models
/// appended.
pub open spec fn appended_websocket(before: Seq<Event>, after: Seq<Event>, views: Seq<WebsocketView>) -> bool {
    &&& after.len() == before.len() + views.len()
    &&& after.take(before.len() as int) == before
    &&& forall|k: int| 0 <= k < views.len() ==> websocket_view(#[trigger] after[before.len() + k]) == Some(views[k])
}

/// The RPC link: its sending and receiving halves and the connection flag.
#[derive(Debug)]
pub struct Rpc {
    pub has_sender: bool,
    pub has_receiver: bool,
    pub is_connected: bool,
}

/// What the RPC link needs from the socket layer.
#[derive(Debug)]
pub enum RpcAction {
    Nothing,
    /// Open a connection to `ws://<url>`.
    Connect { url: String },
    /// Send a message as text over the open connection.
    Send { message: RpcMessage },
    /// Drop both halves of the connection.
    Close,
}

/// The message a binary frame on the RPC link is answered with.
pub open spec fn binary_refused_message() -> Seq<char> {
    "Binary messages not supported"@
}

/// The websocket events a socket event on the RPC link queues.
pub open spec fn rpc_reaction(event: SocketEvent) -> Seq<WebsocketView> {
    match event {
        SocketEvent::Opened => seq![WebsocketView::Connected],
        SocketEvent::Text(text) => seq![WebsocketView::Message(text@)],
        SocketEvent::Binary(_) => seq![WebsocketView::Error(binary_refused_message())],
        SocketEvent::Error(error) => seq![WebsocketView::Error(error@)],
        SocketEvent::Closed => seq![WebsocketView::Disconnected],
        SocketEvent::Other => seq![],
    }
}

/// The websocket events a run of socket events on the RPC link queues.
pub open spec fn rpc_reactions(events: Seq<SocketEvent>) -> Seq<WebsocketView>
    decreases events.len(),
{
    if events.len() == 0 {
        seq![]
    } else {
        rpc_reactions(events.drop_last()) + rpc_reaction(events.last())
    }
}

/// Queues one websocket event.
fn publish_websocket(queues: &mut EventQueues, event: WebsocketEvent)
    ensures
        final(queues).events@ == old(queues).events@.push(Event::Websocket { event }),
{
    push_event(queues, Event::Websocket { event });
}

/// Handles one socket event of the RPC link.
fn receive_rpc_event(rpc: &mut Rpc, queues: &mut EventQueues, event: SocketEvent)
    ensures
        appended_websocket(old(queues).events@, final(queues).events@, rpc_reaction(event)),
        final(rpc).is_connected == connected_after(old(rpc).is_connected, event),
        final(rpc).has_sender == old(rpc).has_sender,
        final(rpc).has_receiver == old(rpc).has_receiver,
{
    let ghost before = queues.events@;
    match event {
        SocketEvent::Opened => {
            rpc.is_connected = true;
            publish_websocket(queues, WebsocketEvent::Connected);
        },
        SocketEvent::Text(text) => {
            publish_websocket(queues, WebsocketEvent::Message { message: text });
        },
        SocketEvent::Binary(_) => {
            publish_websocket(queues, WebsocketEvent::Error { error: String::from_str("Binary messages not supported") });
        },
        SocketEvent::Error(error) => {
            rpc.is_connected = false;
            publish_websocket(queues, WebsocketEvent::Error { error });
        },
        SocketEvent::Closed => {
            rpc.is_connected = false;
            publish_websocket(queues, WebsocketEvent::Disconnected);
        },
        SocketEvent::Other => {},
    }
    assert(queues.events@.take(before.len() as int) =~= before);
}

/// Handles the socket events the RPC link received, in order.
pub fn receive_rpc_events_system(rpc: &mut Rpc, queues: &mut EventQueues, incoming: Vec<SocketEvent>)
    ensures
        appended_websocket(old(queues).events@, final(queues).events@, rpc_reactions(incoming@)),
        final(rpc).is_connected == connected_after_all(old(rpc).is_connected, incoming@),
        final(rpc).has_sender == old(rpc).has_sender,
        final(rpc).has_receiver == old(rpc).has_receiver,
{
    let ghost all = incoming@;
    let ghost start = queues.events@;
    let mut rest = incoming;
    let mut i: usize = 0;
    let n = rest.len();
    assert(start.take(start.len() as int) =~= start);
    assert(all.take(0) =~= Seq::<SocketEvent>::empty());
    while i < n
        invariant
            i <= n,
            n == all.len(),
            start == old(queues).events@,
            rest@ == all.skip(i as int),
            appended_websocket(start, queues.events@, rpc_reactions(all.take(i as int))),
            rpc.is_connected == connected_after_all(old(rpc).is_connected, all.take(i as int)),
            rpc.has_sender == old(rpc).has_sender,
            rpc.has_receiver == old(rpc).has_receiver,
        decreases n - i,
    {
        assert(all.take(i + 1).drop_last() =~= all.take(i as int));
        assert(rest@[0] == all[i as int]);
        let event = rest.remove(0);
        assert(rest@ =~= all.skip(i + 1));
        let ghost mid = queues.events@;
        let ghost done = rpc_reactions(all.take(i as int));
        let ghost step = rpc_reaction(event);
        receive_rpc_event(rpc, queues, event);
        proof {
            let after = queues.events@;
            assert(rpc_reactions(all.take(i + 1)) =~= done + step);
            assert(after.take(start.len() as int) =~= start) by {
                assert forall|j: int| 0 <= j < start.len() implies after[j] == start[j] by {
                    assert(after.take(mid.len() as int)[j] == mid[j]);
                    assert(mid.take(start.len() as int)[j] == start[j]);
                }
            }
            assert forall|k: int| 0 <= k < (done + step).len() implies websocket_view(
                #[trigger] after[start.len() + k],
            ) == Some((done + step)[k]) by {
                if k < done.len() {
                    assert(after.take(mid.len() as int)[start.len() + k] == mid[start.len() + k]);
                } else {
                    assert(after[mid.len() + (k - done.len())] == after[start.len() + k]);
                }
            }
        }
        i += 1;
    }
    assert(all.take(n as int) =~= all);
}

/// What an RPC command does to the link and the event queue, and the action
/// it leaves for the socket layer.
pub open spec fn rpc_effect(rpc0: Rpc, ev0: Seq<Event>, command: RpcCommand, rpc1: Rpc, ev1: Seq<Event>, r: RpcAction) -> bool {
    match command {
        RpcCommand::Connect { url } => if rpc0.is_connected {
            &&& r is Nothing
            &&& appended_websocket(ev0, ev1, seq![WebsocketView::Error("Already connected"@)])
            &&& rpc1 == rpc0
        } else {
            r == (RpcAction::Connect { url }) && ev1 == ev0 && rpc1 == rpc0
        },
        RpcCommand::Send { message } => rpc1 == rpc0 && if !rpc0.is_connected {
            &&& r is Nothing
            &&& appended_websocket(ev0, ev1, seq![WebsocketView::Error("Not connected"@)])
        } else if rpc0.has_sender {
            r == (RpcAction::Send { message }) && ev1 == ev0
        } else {
            r is Nothing && ev1 == ev0
        },
        RpcCommand::Disconnect => {
            &&& r is Close
            &&& !rpc1.is_connected && !rpc1.has_sender && !rpc1.has_receiver
            &&& ev1 == ev0.push(Event::Websocket { event: WebsocketEvent::Disconnected })
        },
        RpcCommand::Empty => r is Nothing && rpc1 == rpc0 && ev1 == ev0,
    }
}

/// Decides what an RPC command needs. Connecting while connected, or sending
/// while not, reports the refusal instead; disconnecting drops the link and
/// reports it.
pub fn execute_rpc_command(rpc: &mut Rpc, queues: &mut EventQueues, command: RpcCommand) -> (r: RpcAction)
    ensures
        rpc_effect(*old(rpc), old(queues).events@, command, *final(rpc), final(queues).events@, r),
        match command {
            RpcCommand::Connect { url } => if old(rpc).is_connected {
                &&& r is Nothing
                &&& appended_websocket(
                    old(queues).events@,
                    final(queues).events@,
                    seq![WebsocketView::Error("Already connected"@)],
                )
                &&& *final(rpc) == *old(rpc)
            } else {
                r == (RpcAction::Connect { url }) && final(queues).events@ == old(queues).events@ && *final(rpc)
                    == *old(rpc)
            },
            RpcCommand::Send { message } => *final(rpc) == *old(rpc) && if !old(rpc).is_connected {
                &&& r is Nothing
                &&& appended_websocket(
                    old(queues).events@,
                    final(queues).events@,
                    seq![WebsocketView::Error("Not connected"@)],
                )
            } else if old(rpc).has_sender {
                r == (RpcAction::Send { message }) && final(queues).events@ == old(queues).events@
            } else {
                r is Nothing && final(queues).events@ == old(queues).events@
            },
            RpcCommand::Disconnect => {
                &&& r is Close
                &&& !final(rpc).is_connected && !final(rpc).has_sender && !final(rpc).has_receiver
                &&& final(queues).events@ == old(queues).events@.push(
                    Event::Websocket { event: WebsocketEvent::Disconnected },
                )
            },
            RpcCommand::Empty => r is Nothing && *final(rpc) == *old(rpc) && final(queues).events@ == old(
                queues,
            ).events@,
        },
{
    let ghost before = queues.events@;
    match command {
        RpcCommand::Connect { url } => {
            if rpc.is_connected {
                publish_websocket(queues, WebsocketEvent::Error { error: String::from_str("Already connected") });
                assert(queues.events@.take(before.len() as int) =~= before);
                return RpcAction::Nothing;
            }
            RpcAction::Connect { url }
        },
        RpcCommand::Send { message } => {
            if !rpc.is_connected {
                publish_websocket(queues, WebsocketEvent::Error { error: String::from_str("Not connected") });
                assert(queues.events@.take(before.len() as int) =~= before);
                return RpcAction::Nothing;
            }
            if rpc.has_sender {
                RpcAction::Send { message }
            } else {
                RpcAction::Nothing
            }
        },
        RpcCommand::Disconnect => {
            rpc.is_connected = false;
            rpc.has_sender = false;
            rpc.has_receiver = false;
            publish_websocket(queues, WebsocketEvent::Disconnected);
            RpcAction::Close
        },
        RpcCommand::Empty => RpcAction::Nothing,
    }
}

/// Records how opening the RPC connection went: on success the link is
/// connected with both halves and reports it, else it reports the failure.
pub fn rpc_connect_outcome(rpc: &mut Rpc, queues: &mut EventQueues, url: &str, opened: bool)
    ensures
        opened ==> final(rpc).has_sender && final(rpc).has_receiver && final(rpc).is_connected
            && final(queues).events@ == old(queues).events@.push(Event::Websocket { event: WebsocketEvent::Connected }),
        !opened ==> *final(rpc) == *old(rpc) && appended_websocket(
            old(queues).events@,
            final(queues).events@,
            seq![WebsocketView::Error("Failed to connect to "@ + url@)],
        ),
{
    let ghost before = queues.events@;
    if opened {
        rpc.has_sender = true;
        rpc.has_receiver = true;
        rpc.is_connected = true;
        publish_websocket(queues, WebsocketEvent::Connected);
    } else {
        let mut error = String::from_str("Failed to connect to ");
        error.append(url);
        publish_websocket(queues, WebsocketEvent::Error { error });
        assert(queues.events@.take(before.len() as int) =~= before);
    }
}

/// Reports a message sent over the RPC link, by its shown text.
pub fn rpc_sent(queues: &mut EventQueues, shown: &str)
    ensures
        appended_websocket(old(queues).events@, final(queues).events@, seq![WebsocketView::Message("Sent: "@ + shown@)]),
{
    let ghost before = queues.events@;
    let mut message = String::from_str("Sent: ");
    message.append(shown);
    publish_websocket(queues, WebsocketEvent::Message { message });
    assert(queues.events@.take(before.len() as int) =~= before);
}


/// A command for the scene: spawn a named cube or camera (the placement, the
/// float-valued transform and size, is carried through for the caller to
/// apply), answer a request, or drive the RPC link.
#[derive(Clone, Debug)]
pub enum Command<P> {
    Empty,
    SpawnCube { placement: P, name: String },
    SpawnCamera { placement: P, name: String },
    Request { command: RequestCommand },
    Rpc { command: RpcCommand },
}

/// What executing a command leaves for the caller.
#[derive(Debug)]
pub enum CommandStep<P> {
    Done,
    /// An entity was spawned; apply its placement.
    Place { entity: EntityId, placement: P },
    /// The RPC link needs the socket layer.
    Rpc(RpcAction),
}

/// The component mask of a spawned cube.
pub open spec fn cube_mask() -> u32 {
    LOCAL_TRANSFORM | GLOBAL_TRANSFORM | NAME | LINES | QUADS
}

/// The component mask of a spawned camera.
pub open spec fn camera_mask() -> u32 {
    LOCAL_TRANSFORM | GLOBAL_TRANSFORM | NAME | CAMERA
}

/// Queues a command.
pub fn push_command<P>(commands: &mut Vec<Command<P>>, command: Command<P>)
    ensures
        final(commands)@ == old(commands)@.push(command),
{
    commands.push(command);
}

/// Takes every queued command, oldest first, leaving the queue empty.
pub fn take_commands<P>(commands: &mut Vec<Command<P>>) -> (r: Vec<Command<P>>)
    ensures
        r@ == old(commands)@,
        final(commands)@.len() == 0,
{
    let mut taken: Vec<Command<P>> = Vec::new();
    std::mem::swap(&mut taken, commands);
    taken
}

/// Whether an entity is new in a context and was spawned with a mask and a
/// name, every entity live before staying as it was.
pub open spec fn spawned_named(before: Context, after: Context, e: EntityId, mask: u32, name: Seq<char>) -> bool {
    &&& after.well_formed()
    &&& !is_live(before, e)
    &&& is_live(after, e)
    &&& spec_component_mask(after, e) == Some(mask)
    &&& name_component(after, e) == Some(name)
    &&& parent_component(after, e) is None
    &&& keeps_entities(before, after)
}

/// Spawns one named entity with a mask that holds the name component but not
/// the parent component.
fn spawn_named(context: &mut Context, mask: u32, name: String) -> (r: EntityId)
    requires
        old(context).well_formed(),
        has_room(*old(context), 1),
        mask & NAME != 0,
        mask & crate::scene::PARENT == 0,
    ensures
        spawned_named(*old(context), *final(context), r, mask, name@),
        grew_by_one(*old(context), *final(context)),
{
    let ghost text = name@;
    let spawned = spawn_entities(context, mask, 1);
    let entity = spawned[0];
    let ghost mid = *context;
    let written = set_name(context, entity, name);
    assert(written);
    proof {
        assert forall|x: EntityId| #[trigger] is_live(*old(context), x) implies is_live(*context, x)
            && spec_component_mask(*context, x) == spec_component_mask(*old(context), x)
            && parent_component(*context, x) == parent_component(*old(context), x)
            && name_component(*context, x) == name_component(*old(context), x) by {
            assert(is_live(mid, x));
            if x == entity {
                assert(spawned@[0] == entity);
            }
        }
        lemma_spawn_one_grows(*old(context), mid, mask, spawned@);
        assert(table_rows(context.tables@).len() == table_rows(mid.tables@).len());
        assert(context.tables@.len() == mid.tables@.len());
        assert forall|t: int| 0 <= t < context.tables@.len() implies (#[trigger] context.tables@[t]).entity_indices@
            == mid.tables@[t].entity_indices@ by {
            assert(table_rows(context.tables@)[t] == table_rows(mid.tables@)[t]);
        }
    }
    entity
}

/// Spawns a named cube; its transform and geometry come from the placement.
pub fn spawn_cube(context: &mut Context, name: String) -> (r: EntityId)
    requires
        old(context).well_formed(),
        has_room(*old(context), 1),
    ensures
        spawned_named(*old(context), *final(context), r, cube_mask(), name@),
        grew_by_one(*old(context), *final(context)),
{
    assert(cube_mask() & NAME != 0 && cube_mask() & crate::scene::PARENT == 0) by (bit_vector);
    spawn_named(context, LOCAL_TRANSFORM | GLOBAL_TRANSFORM | NAME | LINES | QUADS, name)
}

/// Spawns a named camera, and makes it the active camera when there is none.
pub fn spawn_camera(context: &mut Context, active_camera: &mut Option<EntityId>, name: String) -> (r: EntityId)
    requires
        old(context).well_formed(),
        has_room(*old(context), 1),
    ensures
        spawned_named(*old(context), *final(context), r, camera_mask(), name@),
        grew_by_one(*old(context), *final(context)),
        *final(active_camera) == if old(active_camera).is_none() {
            Some(r)
        } else {
            *old(active_camera)
        },
{
    assert(camera_mask() & NAME != 0 && camera_mask() & crate::scene::PARENT == 0) by (bit_vector);
    let entity = spawn_named(context, LOCAL_TRANSFORM | GLOBAL_TRANSFORM | NAME | CAMERA, name);
    if active_camera.is_none() {
        *active_camera = Some(entity);
    }
    entity
}

/// What answering a request does to the event queue: the camera entities
/// are reported as one more event.
pub open spec fn request_effect(ctx: Context, ev0: Seq<Event>, command: RequestCommand, ev1: Seq<Event>) -> bool {
    match command {
        RequestCommand::RequestCameraEntities => {
            &&& ev1.len() == ev0.len() + 1
            &&& ev1.drop_last() == ev0
            &&& ev1.last() matches Event::CameraReport { cameras, source } && cameras@ == spec_query_entities(
                ctx,
                CAMERA,
            ) && source is None
        },
        RequestCommand::Empty => ev1 == ev0,
    }
}

/// Answers a request: the camera entities, reported as an event.
pub fn execute_request_command(context: &Context, queues: &mut EventQueues, command: RequestCommand)
    ensures
        request_effect(*context, old(queues).events@, command, final(queues).events@),
        match command {
            RequestCommand::RequestCameraEntities => {
                &&& final(queues).events@.len() == old(queues).events@.len() + 1
                &&& final(queues).events@.drop_last() == old(queues).events@
                &&& final(queues).events@.last() matches Event::CameraReport { cameras, source }
                    && cameras@ == spec_query_entities(*context, CAMERA) && source is None
            },
            RequestCommand::Empty => final(queues).events@ == old(queues).events@,
        },
{
    match command {
        RequestCommand::RequestCameraEntities => {
            let cameras = query_entities(context, CAMERA);
            push_event(queues, Event::CameraReport { cameras, source: None });
            assert(queues.events@.drop_last() =~= old(queues).events@);
        },
        RequestCommand::Empty => {},
    }
}

/// What executing a command does: the context, the active camera, the event
/// queue and the RPC link before and after, and the step it leaves.
pub open spec fn command_effect<P>(
    ctx0: Context,
    cam0: Option<EntityId>,
    ev0: Seq<Event>,
    rpc0: Rpc,
    command: Command<P>,
    ctx1: Context,
    cam1: Option<EntityId>,
    ev1: Seq<Event>,
    rpc1: Rpc,
    r: CommandStep<P>,
) -> bool {
    match command {
        Command::Empty => r is Done && ctx1 == ctx0 && cam1 == cam0 && ev1 == ev0 && rpc1 == rpc0,
        Command::SpawnCube { placement, name } => {
            &&& r matches CommandStep::Place { entity, placement: p }
            &&& p == placement
            &&& spawned_named(ctx0, ctx1, entity, cube_mask(), name@)
            &&& grew_by_one(ctx0, ctx1)
            &&& ev1 == ev0.push(Event::EntityCreated { entity_id: entity, source: None })
            &&& cam1 == cam0
            &&& rpc1 == rpc0
        },
        Command::SpawnCamera { placement, name } => {
            &&& r matches CommandStep::Place { entity, placement: p }
            &&& p == placement
            &&& spawned_named(ctx0, ctx1, entity, camera_mask(), name@)
            &&& grew_by_one(ctx0, ctx1)
            &&& ev1 == ev0.push(Event::EntityCreated { entity_id: entity, source: None })
            &&& cam1 == if cam0.is_none() {
                Some(entity)
            } else {
                cam0
            }
            &&& rpc1 == rpc0
        },
        Command::Request { command } => {
            &&& r is Done
            &&& ctx1 == ctx0 && cam1 == cam0 && rpc1 == rpc0
            &&& request_effect(ctx0, ev0, command, ev1)
        },
        Command::Rpc { command } => {
            &&& r matches CommandStep::Rpc(action) && rpc_effect(rpc0, ev0, command, rpc1, ev1, action)
            &&& ctx1 == ctx0 && cam1 == cam0
        },
    }
}

/// Executes one command: spawns report the new entity and hand back its
/// placement, requests report their answer, RPC commands drive the link.
pub fn execute_command<P>(
    context: &mut Context,
    active_camera: &mut Option<EntityId>,
    queues: &mut EventQueues,
    rpc: &mut Rpc,
    command: Command<P>,
) -> (r: CommandStep<P>)
    requires
        old(context).well_formed(),
        has_room(*old(context), 1),
    ensures
        final(context).well_formed(),
        command_effect(
            *old(context),
            *old(active_camera),
            old(queues).events@,
            *old(rpc),
            command,
            *final(context),
            *final(active_camera),
            final(queues).events@,
            *final(rpc),
            r,
        ),
{
    match command {
        Command::Empty => CommandStep::Done,
        Command::SpawnCube { placement, name } => {
            let entity = spawn_cube(context, name);
            push_event(queues, Event::EntityCreated { entity_id: entity, source: None });
            CommandStep::Place { entity, placement }
        },
        Command::SpawnCamera { placement, name } => {
            let entity = spawn_camera(context, active_camera, name);
            push_event(queues, Event::EntityCreated { entity_id: entity, source: None });
            CommandStep::Place { entity, placement }
        },
        Command::Request { command } => {
            execute_request_command(context, queues, command);
            CommandStep::Done
        },
        Command::Rpc { command } => CommandStep::Rpc(execute_rpc_command(rpc, queues, command)),
    }
}

/// Whether running commands in order takes a state through these states,
/// each command leaving its step: the context, the active camera, the event
/// queue and the RPC link.
pub open spec fn commands_effect<P>(
    states: Seq<(Context, Option<EntityId>, Seq<Event>, Rpc)>,
    commands: Seq<Command<P>>,
    steps: Seq<CommandStep<P>>,
) -> bool {
    &&& states.len() == commands.len() + 1
    &&& steps.len() == commands.len()
    &&& forall|k: int|
        0 <= k < commands.len() ==> command_effect(
            states[k].0,
            states[k].1,
            states[k].2,
            states[k].3,
            #[trigger] commands[k],
            states[k + 1].0,
            states[k + 1].1,
            states[k + 1].2,
            states[k + 1].3,
            steps[k],
        )
}

/// Takes the queued commands and executes them in order, oldest first; the
/// steps they leave come back in the same order.
pub fn execute_commands_system<P>(
    context: &mut Context,
    active_camera: &mut Option<EntityId>,
    queues: &mut EventQueues,
    rpc: &mut Rpc,
    commands: &mut Vec<Command<P>>,
) -> (r: Vec<CommandStep<P>>)
    requires
        old(context).well_formed(),
        room_for(*old(context), old(commands)@.len()),
    ensures
        final(context).well_formed(),
        final(commands)@.len() == 0,
        exists|states: Seq<(Context, Option<EntityId>, Seq<Event>, Rpc)>|
            {
                &&& commands_effect(states, old(commands)@, r@)
                &&& states[0] == (*old(context), *old(active_camera), old(queues).events@, *old(rpc))
                &&& states.last() == (*final(context), *final(active_camera), final(queues).events@, *final(rpc))
            },
{
    let mut taken = take_commands(commands);
    let ghost all = taken@;
    let n = taken.len();
    let mut steps: Vec<CommandStep<P>> = Vec::new();
    let ghost mut states: Seq<(Context, Option<EntityId>, Seq<Event>, Rpc)> = seq![
        (*context, *active_camera, queues.events@, *rpc),
    ];
    let mut k: usize = 0;
    while k < n
        invariant
            k <= n,
            n == all.len(),
            taken@.len() == n,
            forall|j: int| k <= j < n ==> taken@[j] == #[trigger] all[j],
            context.well_formed(),
            room_for(*context, (n - k) as nat),
            states.len() == k + 1,
            steps@.len() == k,
            commands_effect(states, all.take(k as int), steps@),
            states[0] == (*old(context), *old(active_camera), old(queues).events@, *old(rpc)),
            states.last() == (*context, *active_camera, queues.events@, *rpc),
            commands@.len() == 0,
        decreases n - k,
    {
        let mut command = Command::Empty;
        taken.set_and_swap(k, &mut command);
        let ghost before = *context;
        proof {
            lemma_room_step(before, before, (n - k - 1) as nat);
        }
        let step = execute_command(context, active_camera, queues, rpc, command);
        proof {
            if !grew_by_one(before, *context) {
                assert(*context == before);
                assert forall|t: int| 0 <= t < context.tables@.len() implies (#[trigger] context.tables@[t]).entity_indices@.len()
                    <= (if t < before.tables@.len() {
                    before.tables@[t].entity_indices@.len() as int
                } else {
                    0
                }) + 1 by {}
            }
            lemma_room_step(before, *context, (n - k - 1) as nat);
        }
        steps.push(step);
        proof {
            let ghost prev = states;
            states = states.push((*context, *active_camera, queues.events@, *rpc));
            assert(all.take(k + 1).drop_last() =~= all.take(k as int));
            assert forall|j: int| 0 <= j < k + 1 implies command_effect(
                states[j].0,
                states[j].1,
                states[j].2,
                states[j].3,
                #[trigger] all.take(k + 1)[j],
                states[j + 1].0,
                states[j + 1].1,
                states[j + 1].2,
                states[j + 1].3,
                steps@[j],
            ) by {
                if j < k {
                    assert(all.take(k + 1)[j] == all.take(k as int)[j]);
                    assert(states[j] == prev[j]);
                    assert(states[j + 1] == prev[j + 1]);
                } else {
                    assert(states[j] == prev.last());
                }
            }
        }
        k += 1;
    }
    proof {
        assert(all.take(n as int) =~= all);
    }
    steps
}

} // verus!
