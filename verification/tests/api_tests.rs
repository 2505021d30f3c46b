use nightshade_viewer::api::{
    Command, CommandStep, Event, EventQueues, Ipc, IpcAction, IpcCommand, IpcError, IpcEvent, IpcMessage,
    IpcResult, Network, NetworkAction, NetworkCommand, NetworkError, NetworkEvent, NetworkMessage,
    RequestCommand, Rpc, RpcAction, RpcCommand, RpcMessage, SocketEvent, WebsocketEvent, execute_command,
    execute_ipc_command, execute_network_command, execute_rpc_command, ipc_connect_outcome, ipc_parse_failure,
    ipc_response, network_connect_outcome, process_events_system, process_ipc_commands_system, push_command,
    push_event, push_event_with_source, receive_ipc_events_system, receive_network_events_system,
    receive_rpc_events_system, rpc_connect_outcome, rpc_sent, should_capture_keyboard, take_commands,
    execute_commands_system,
};
use nightshade_viewer::scene::{CAMERA, Context, EntityId, get_name, query_entities};

fn queues() -> EventQueues {
    EventQueues { events: Vec::new() }
}

#[test]
fn events_come_out_in_order() {
    let mut q = queues();
    push_event(&mut q, Event::Empty);
    push_event(&mut q, Event::Websocket { event: WebsocketEvent::Connected });
    let taken = process_events_system(&mut q);
    assert_eq!(taken.len(), 2);
    assert!(matches!(taken[0], Event::Empty));
    assert!(q.events.is_empty());
}

#[test]
fn sourced_events_carry_their_command() {
    let mut q = queues();
    let e = EntityId { id: 1, generation: 0 };
    push_event_with_source(&mut q, Event::EntityCreated { entity_id: e, source: None }, 7);
    push_event_with_source(&mut q, Event::Websocket { event: WebsocketEvent::Disconnected }, 7);
    assert!(matches!(q.events[0], Event::EntityCreated { source: Some(7), .. }));
    assert!(matches!(q.events[1], Event::Websocket { event: WebsocketEvent::Disconnected }));
}

#[test]
fn keyboard_capture() {
    assert!(!should_capture_keyboard(None));
    assert!(should_capture_keyboard(Some((false, true))));
    assert!(!should_capture_keyboard(Some((false, false))));
}

#[test]
fn network_events_update_connection() {
    let mut net = Network { has_sender: false, is_connected: false, commands: vec![] };
    let mut q = queues();
    receive_network_events_system(
        &mut net,
        &mut q,
        vec![SocketEvent::Opened, SocketEvent::Text("hi".into()), SocketEvent::Other, SocketEvent::Error("bad".into())],
    );
    assert!(!net.is_connected);
    assert_eq!(q.events.len(), 3);
    assert!(matches!(q.events[0], Event::Network { event: NetworkEvent::ConnectionAttemptStarted }));
    assert!(matches!(
        q.events[1],
        Event::Network { event: NetworkEvent::Message { message: NetworkMessage::Text { ref string } } } if string == "hi"
    ));
    assert!(matches!(q.events[2], Event::Network { event: NetworkEvent::Error { error: NetworkError::Server { .. } } }));
}

#[test]
fn network_send_needs_a_sender() {
    let mut net = Network { has_sender: false, is_connected: false, commands: vec![] };
    let mut q = queues();
    let action = execute_network_command(&mut net, &mut q, NetworkCommand::Send { message: NetworkMessage::Binary { bytes: vec![1] } });
    assert!(matches!(action, NetworkAction::Nothing));
    assert!(matches!(q.events[0], Event::Network { event: NetworkEvent::Error { error: NetworkError::SendFailed { .. } } }));
    let action = execute_network_command(&mut net, &mut q, NetworkCommand::Connect { url: "host:1".into() });
    assert!(matches!(action, NetworkAction::Connect { ref url } if url == "host:1"));
    network_connect_outcome(&mut net, &mut q, "host:1".into(), true);
    assert!(net.has_sender);
    let action = execute_network_command(&mut net, &mut q, NetworkCommand::Send { message: NetworkMessage::Text { string: "x".into() } });
    assert!(matches!(action, NetworkAction::Send { .. }));
    let action = execute_network_command(&mut net, &mut q, NetworkCommand::Disconnect);
    assert!(matches!(action, NetworkAction::DropSender));
    assert!(!net.has_sender && !net.is_connected);
}

#[test]
fn ipc_commands_are_numbered() {
    let mut ipc = Ipc { has_sender: false, is_connected: false, next_command_id: u64::MAX };
    let mut q = queues();
    let action = execute_ipc_command(&mut ipc, &mut q, IpcCommand::Connect { url: "h".into() });
    assert!(matches!(action, IpcAction::Connect { command_id: u64::MAX, .. }));
    assert_eq!(ipc.next_command_id, 0);
    ipc_connect_outcome(&mut ipc, &mut q, "h".into(), u64::MAX, false);
    assert!(matches!(q.events[0], Event::Ipc { event: IpcEvent::Error { error: IpcError::ConnectionFailed { .. } }, source: Some(u64::MAX) }));
    let action = execute_ipc_command(&mut ipc, &mut q, IpcCommand::Send { message: IpcMessage::Text { string: "m".into() } });
    assert!(matches!(action, IpcAction::Nothing));
    assert!(matches!(q.events[1], Event::Ipc { source: Some(0), .. }));
    ipc.has_sender = true;
    match execute_ipc_command(&mut ipc, &mut q, IpcCommand::Send { message: IpcMessage::Text { string: "m".into() } }) {
        IpcAction::Send { frame } => assert_eq!(frame.id, 1),
        _ => panic!(),
    }
    receive_ipc_events_system(&mut ipc, &mut q, vec![SocketEvent::Opened, SocketEvent::Closed]);
    assert!(!ipc.is_connected);
    assert!(matches!(q.events[3], Event::Ipc { event: IpcEvent::Disconnected, source: None }));
}

#[test]
fn ipc_backend_answers() {
    let mut next: u64 = 4;
    let ok = ipc_response(&mut next, true);
    assert_eq!(ok.id, 4);
    assert!(matches!(ok.result, IpcResult::Success));
    let failed = ipc_response(&mut next, false);
    assert_eq!(failed.id, 5);
    assert!(matches!(failed.result, IpcResult::Error { ref message } if message == "Failed to forward command"));
    assert_eq!(next, 6);
    let unreadable = ipc_parse_failure("eof");
    assert_eq!(unreadable.id, 0);
    assert!(matches!(unreadable.result, IpcResult::Error { ref message } if message == "Failed to parse command: eof"));
}

#[test]
fn received_commands_queue_in_order() {
    let mut commands: Vec<Command<u8>> = Vec::new();
    push_command(&mut commands, Command::Empty);
    process_ipc_commands_system(&mut commands, vec![Command::Request { command: RequestCommand::Empty }]);
    assert_eq!(commands.len(), 2);
    let taken = take_commands(&mut commands);
    assert_eq!(taken.len(), 2);
    assert!(commands.is_empty());
}

fn websocket_error(e: &Event) -> Option<&str> {
    match e {
        Event::Websocket { event: WebsocketEvent::Error { error } } => Some(error.as_str()),
        _ => None,
    }
}

#[test]
fn rpc_link_refuses_and_reports() {
    let mut rpc = Rpc { has_sender: false, has_receiver: false, is_connected: false };
    let mut q = queues();
    let action = execute_rpc_command(&mut rpc, &mut q, RpcCommand::Send { message: RpcMessage::Empty });
    assert!(matches!(action, RpcAction::Nothing));
    assert_eq!(websocket_error(&q.events[0]), Some("Not connected"));
    let action = execute_rpc_command(&mut rpc, &mut q, RpcCommand::Connect { url: "h:1".into() });
    assert!(matches!(action, RpcAction::Connect { .. }));
    rpc_connect_outcome(&mut rpc, &mut q, "h:1", false);
    assert_eq!(websocket_error(&q.events[1]), Some("Failed to connect to h:1"));
    rpc_connect_outcome(&mut rpc, &mut q, "h:1", true);
    assert!(rpc.is_connected);
    let action = execute_rpc_command(&mut rpc, &mut q, RpcCommand::Connect { url: "h:2".into() });
    assert!(matches!(action, RpcAction::Nothing));
    assert_eq!(websocket_error(&q.events[3]), Some("Already connected"));
    rpc_sent(&mut q, "Text");
    assert!(matches!(q.events[4], Event::Websocket { event: WebsocketEvent::Message { ref message } } if message == "Sent: Text"));
    receive_rpc_events_system(&mut rpc, &mut q, vec![SocketEvent::Binary(vec![1]), SocketEvent::Closed]);
    assert_eq!(websocket_error(&q.events[5]), Some("Binary messages not supported"));
    assert!(!rpc.is_connected);
    let action = execute_rpc_command(&mut rpc, &mut q, RpcCommand::Disconnect);
    assert!(matches!(action, RpcAction::Close));
}

#[test]
fn commands_spawn_and_report() {
    let mut ctx = Context::new();
    let mut active: Option<EntityId> = None;
    let mut q = queues();
    let mut rpc = Rpc { has_sender: false, has_receiver: false, is_connected: false };
    let step = execute_command(&mut ctx, &mut active, &mut q, &mut rpc, Command::SpawnCamera { placement: 5u8, name: "Cam".into() });
    let camera = match step {
        CommandStep::Place { entity, placement } => {
            assert_eq!(placement, 5);
            entity
        }
        _ => panic!(),
    };
    assert_eq!(active, Some(camera));
    assert_eq!(get_name(&ctx, camera).map(|n| n.0.clone()), Some("Cam".to_string()));
    let step = execute_command(&mut ctx, &mut active, &mut q, &mut rpc, Command::SpawnCube { placement: 1u8, name: "Cube".into() });
    assert!(matches!(step, CommandStep::Place { .. }));
    assert_eq!(active, Some(camera));
    execute_command(&mut ctx, &mut active, &mut q, &mut rpc, Command::<u8>::Request { command: RequestCommand::RequestCameraEntities });
    assert_eq!(q.events.len(), 3);
    match &q.events[2] {
        Event::CameraReport { cameras, source } => {
            assert_eq!(cameras, &vec![camera]);
            assert!(source.is_none());
        }
        _ => panic!(),
    }
    assert_eq!(query_entities(&ctx, CAMERA), vec![camera]);
}

#[test]
fn queued_commands_run_in_order() {
    let mut ctx = Context::new();
    let mut active: Option<EntityId> = None;
    let mut q = queues();
    let mut rpc = Rpc { has_sender: false, has_receiver: false, is_connected: false };
    let mut commands: Vec<Command<u8>> = Vec::new();
    push_command(&mut commands, Command::SpawnCamera { placement: 7, name: "Cam".into() });
    push_command(&mut commands, Command::Request { command: RequestCommand::RequestCameraEntities });
    push_command(&mut commands, Command::Rpc { command: RpcCommand::Send { message: RpcMessage::Empty } });
    push_command(&mut commands, Command::Empty);
    let steps = execute_commands_system(&mut ctx, &mut active, &mut q, &mut rpc, &mut commands);
    assert!(commands.is_empty());
    assert_eq!(steps.len(), 4);
    let camera = match &steps[0] {
        CommandStep::Place { entity, placement } => {
            assert_eq!(*placement, 7);
            *entity
        }
        _ => panic!(),
    };
    assert!(matches!(steps[1], CommandStep::Done));
    assert!(matches!(steps[2], CommandStep::Rpc(RpcAction::Nothing)));
    assert!(matches!(steps[3], CommandStep::Done));
    assert_eq!(active, Some(camera));
    assert!(matches!(q.events[0], Event::EntityCreated { .. }));
    match &q.events[1] {
        Event::CameraReport { cameras, .. } => assert_eq!(cameras, &vec![camera]),
        _ => panic!(),
    }
    assert_eq!(q.events.len(), 3);
}
