use nightshade_viewer::host::{
    BatchRun, HostState, PollOutcome, RING_CAPACITY, Route, ToolReply, applied_result, filter_batch, lookup_ref,
    resolve_refs, spawn_result, Listing, McpMethod, METHOD_NOT_FOUND, listing_result, mcp_method, method_not_found,
};
use nightshade_viewer::json::JsonValue;
use nightshade_viewer::protocol::{AgentResponse, Delta, DeltaBatch, EntityRef, Snapshot, SubscriptionFilter};

fn batch(base: u64, target: u64, deltas: Vec<Delta>) -> DeltaBatch {
    DeltaBatch { base_version: base, target_version: target, deltas, checksum: None }
}

fn entity(id: u32) -> EntityRef {
    EntityRef { id, generation: 0 }
}

fn number(text: &str) -> JsonValue {
    JsonValue::Number(text.to_string())
}

fn object(members: Vec<(&str, JsonValue)>) -> JsonValue {
    JsonValue::Object(members.into_iter().map(|(k, v)| (k.to_string(), v)).collect())
}

fn string(text: &str) -> JsonValue {
    JsonValue::String(text.to_string())
}

fn filter(names: &[&str]) -> SubscriptionFilter {
    SubscriptionFilter { component_types: names.iter().map(|n| n.to_string()).collect(), entities: None }
}

fn as_text(v: &JsonValue) -> Option<&str> {
    match v {
        JsonValue::String(s) => Some(s.as_str()),
        _ => None,
    }
}

#[test]
fn correlation_ids_count_up_from_one() {
    let mut host = HostState::new();
    assert_eq!(host.correlation(), 1);
    assert_eq!(host.correlation(), 2);
    assert_eq!(host.correlation(), 3);
}

#[test]
fn correlation_ids_wrap_around() {
    let mut host = HostState::new();
    host.next_correlation = u64::MAX;
    assert_eq!(host.correlation(), u64::MAX);
    assert_eq!(host.correlation(), 0);
}

#[test]
fn batches_are_buffered_and_replies_routed() {
    let mut host = HostState::new();
    let routed = host.route_response(AgentResponse::Batch { batch: batch(0, 1, vec![]) });
    assert!(matches!(routed, Route::Buffered));
    assert_eq!(host.ring.len(), 1);
    let routed = host.route_response(AgentResponse::CommandProgress { correlation_id: 5, stage: "fetch".into() });
    assert!(matches!(routed, Route::Progress));
    let routed = host.route_response(AgentResponse::CommandApplied { correlation_id: 7, version: 3 });
    assert!(matches!(routed, Route::Reply { correlation_id: 7, .. }));
    let routed = host.route_response(AgentResponse::Replay { subscription_id: 1, batches: vec![] });
    assert!(matches!(routed, Route::Unrouted));
    assert_eq!(host.ring.len(), 1);
}

#[test]
fn ring_keeps_only_the_newest_batches() {
    let mut host = HostState::new();
    for v in 0..(RING_CAPACITY as u64 + 3) {
        host.route_response(AgentResponse::Batch { batch: batch(v, v + 1, vec![]) });
    }
    assert_eq!(host.ring.len(), RING_CAPACITY);
    assert_eq!(host.ring[0].base_version, 3);
    assert_eq!(host.ring[RING_CAPACITY - 1].target_version, RING_CAPACITY as u64 + 3);
}

#[test]
fn filter_keeps_lifecycle_and_named_components() {
    let deltas = vec![
        Delta::Spawned { entity: entity(1), components: vec![], origin: None },
        Delta::Changed { entity: entity(1), component: "name".into(), value: string("a"), origin: None },
        Delta::Added { entity: entity(2), component: "light".into(), value: number("1"), origin: None },
        Delta::Removed { entity: entity(2), component: "name".into(), origin: None },
        Delta::Despawned { entity: entity(3), origin: None },
    ];
    let b = batch(4, 5, deltas);
    let narrowed = filter_batch(&b, &filter(&["name"]));
    assert_eq!(narrowed.base_version, 4);
    assert_eq!(narrowed.target_version, 5);
    assert_eq!(narrowed.deltas.len(), 4);
    assert!(matches!(narrowed.deltas[0], Delta::Spawned { .. }));
    assert!(matches!(narrowed.deltas[1], Delta::Changed { .. }));
    assert!(matches!(narrowed.deltas[2], Delta::Removed { .. }));
    assert!(matches!(narrowed.deltas[3], Delta::Despawned { .. }));
    let everything = filter_batch(&b, &filter(&[]));
    assert_eq!(everything.deltas.len(), 5);
}

#[test]
fn poll_of_unknown_subscription_fails() {
    let mut host = HostState::new();
    match host.poll_deltas(9) {
        Err(message) => assert_eq!(message, "unknown subscription_id"),
        Ok(_) => panic!("expected an error"),
    }
}

#[test]
fn poll_delivers_each_batch_once() {
    let mut host = HostState::new();
    host.record_subscription(11, filter(&[]), 2);
    for v in 2..5u64 {
        host.route_response(AgentResponse::Batch { batch: batch(v, v + 1, vec![]) });
    }
    match host.poll_deltas(11) {
        Ok(PollOutcome::Delivered { version, batches }) => {
            assert_eq!(version, 5);
            assert_eq!(batches.len(), 3);
            assert_eq!(batches[0].target_version, 3);
        }
        _ => panic!("expected batches"),
    }
    match host.poll_deltas(11) {
        Ok(PollOutcome::Delivered { version, batches }) => {
            assert_eq!(version, 5);
            assert!(batches.is_empty());
        }
        _ => panic!("expected an empty delivery"),
    }
}

#[test]
fn poll_skips_batches_already_seen() {
    let mut host = HostState::new();
    for v in 0..4u64 {
        host.route_response(AgentResponse::Batch { batch: batch(v, v + 1, vec![]) });
    }
    host.record_subscription(1, filter(&[]), 2);
    match host.poll_deltas(1) {
        Ok(PollOutcome::Delivered { version, batches }) => {
            assert_eq!(version, 4);
            assert_eq!(batches.len(), 2);
        }
        _ => panic!("expected batches"),
    }
}

#[test]
fn aged_out_cursor_asks_for_resync() {
    let mut host = HostState::new();
    host.route_response(AgentResponse::Batch { batch: batch(10, 11, vec![]) });
    host.record_subscription(3, filter(&[]), 4);
    assert!(matches!(host.poll_deltas(3), Ok(PollOutcome::ResyncRequired)));
    assert_eq!(host.subscriptions[&3].cursor, 4);
}

#[test]
fn recording_a_subscription_again_replaces_it() {
    let mut host = HostState::new();
    host.record_subscription(3, filter(&[]), 4);
    host.record_subscription(3, filter(&["name"]), 7);
    assert_eq!(host.subscriptions.len(), 1);
    assert_eq!(host.subscriptions[&3].cursor, 7);
    host.forget_subscription(3);
    assert!(host.subscriptions.is_empty());
    host.forget_subscription(3);
    assert!(host.subscriptions.is_empty());
}

fn results() -> Vec<JsonValue> {
    vec![object(vec![
        ("roots", JsonValue::Array(vec![object(vec![("generation", number("0")), ("id", number("42"))])])),
        ("version", number("9")),
    ])]
}

#[test]
fn reference_reads_a_nested_result() {
    let found = lookup_ref("0.roots.0.id", &results()).unwrap();
    assert!(matches!(found, JsonValue::Number(ref n) if n == "42"));
    let whole = lookup_ref("0", &results()).unwrap();
    assert!(matches!(whole, JsonValue::Object(_)));
}

#[test]
fn reference_errors_name_the_path() {
    match lookup_ref("x.roots", &results()) {
        Err(e) => assert_eq!(e, "bad $ref 'x.roots'"),
        Ok(_) => panic!(),
    }
    match lookup_ref("3.roots", &results()) {
        Err(e) => assert_eq!(e, "$ref '3.roots': op 3 has not run"),
        Ok(_) => panic!(),
    }
    match lookup_ref("0.roots.5", &results()) {
        Err(e) => assert_eq!(e, "$ref '0.roots.5': index 5 out of range"),
        Ok(_) => panic!(),
    }
    match lookup_ref("0.missing", &results()) {
        Err(e) => assert_eq!(e, "$ref '0.missing': no key 'missing'"),
        Ok(_) => panic!(),
    }
}

#[test]
fn placeholders_are_replaced_anywhere() {
    let args = object(vec![
        ("entity", object(vec![("$ref", string("0.roots.0"))])),
        ("list", JsonValue::Array(vec![object(vec![("$ref", string("0.version"))]), number("1")])),
    ]);
    let resolved = resolve_refs(&args, &results()).unwrap();
    match resolved {
        JsonValue::Object(members) => {
            assert_eq!(members[0].0, "entity");
            assert!(matches!(members[0].1, JsonValue::Object(ref m) if m.len() == 2));
            match &members[1].1 {
                JsonValue::Array(items) => {
                    assert!(matches!(items[0], JsonValue::Number(ref n) if n == "9"));
                    assert!(matches!(items[1], JsonValue::Number(ref n) if n == "1"));
                }
                _ => panic!(),
            }
        }
        _ => panic!(),
    }
}

#[test]
fn first_failing_placeholder_fails_the_arguments() {
    let args = JsonValue::Array(vec![object(vec![("$ref", string("1"))]), object(vec![("$ref", string("z"))])]);
    match resolve_refs(&args, &results()) {
        Err(e) => assert_eq!(e, "$ref '1': op 1 has not run"),
        Ok(_) => panic!(),
    }
}

#[test]
fn batch_refuses_nested_batches_and_records_results() {
    let mut run = BatchRun::new();
    assert!(run.prepare(&"batch".to_string(), &JsonValue::Null).is_none());
    assert!(matches!(run.refs[0], JsonValue::Null));
    match &run.report[0] {
        JsonValue::Object(m) => {
            assert_eq!(m[0].0, "error");
            assert_eq!(as_text(&m[0].1), Some("nested batch is not allowed"));
            assert!(matches!(m[1].1, JsonValue::Bool(false)));
            assert_eq!(as_text(&m[2].1), Some("batch"));
        }
        _ => panic!(),
    }
    let prepared = run.prepare(&"query".to_string(), &JsonValue::Null).unwrap();
    assert!(matches!(prepared, JsonValue::Object(ref m) if m.is_empty()));
    run.record(&"query".to_string(), Ok("{\"a\":1}".to_string()), Some(object(vec![("a", number("1"))])));
    run.record(&"spawn_entity".to_string(), Err("boom".to_string()), None);
    run.record(&"list_assets".to_string(), Ok("plain".to_string()), None);
    assert_eq!(run.refs.len(), 4);
    assert!(matches!(run.refs[1], JsonValue::Object(_)));
    assert!(matches!(run.refs[2], JsonValue::Null));
    assert_eq!(as_text(&run.refs[3]), Some("plain"));
    let bad = run.prepare(&"reparent".to_string(), &object(vec![("child", object(vec![("$ref", string("2.x"))]))]));
    assert!(bad.is_none());
    match &run.report[4] {
        JsonValue::Object(m) => assert_eq!(as_text(&m[0].1), Some("$ref '2.x': no key 'x'")),
        _ => panic!(),
    }
}

#[test]
fn command_replies_report_version_or_error() {
    match applied_result(AgentResponse::CommandApplied { correlation_id: 1, version: 12 }) {
        Ok(ToolReply::Value(JsonValue::Object(m))) => {
            assert_eq!(m[0].0, "applied");
            assert!(matches!(m[1].1, JsonValue::Number(ref n) if n == "12"));
        }
        _ => panic!(),
    }
    match applied_result(AgentResponse::CommandFailed { correlation_id: 1, error: "nope".into() }) {
        Err(e) => assert_eq!(e, "nope"),
        Ok(_) => panic!(),
    }
    assert!(matches!(
        applied_result(AgentResponse::QueryResult { correlation_id: 1, entities: vec![] }),
        Ok(ToolReply::Payload(_))
    ));
    match spawn_result(AgentResponse::Loaded { correlation_id: 2, version: 3, roots: vec![entity(8)] }) {
        Ok(ToolReply::Value(JsonValue::Object(m))) => {
            assert_eq!(m[1].0, "roots");
            assert!(matches!(m[1].1, JsonValue::Array(ref items) if items.len() == 1));
        }
        _ => panic!(),
    }
}

#[test]
fn confirmed_subscription_starts_at_snapshot_version() {
    let mut host = HostState::new();
    let reply = host.subscribed_result(
        filter(&["name"]),
        AgentResponse::Subscribed {
            correlation_id: 1,
            subscription_id: 6,
            snapshot: Snapshot { version: 14, entities: vec![] },
        },
    );
    assert!(matches!(reply, Ok(ToolReply::Subscribed { subscription_id: 6, version: 14, .. })));
    assert_eq!(host.subscriptions.len(), 1);
    assert_eq!(host.subscriptions[&6].cursor, 14);
}

#[test]
fn methods_are_routed() {
    assert_eq!(mcp_method("initialize"), McpMethod::Initialize);
    assert_eq!(mcp_method("notifications/initialized"), McpMethod::Initialized);
    assert_eq!(mcp_method("ping"), McpMethod::Ping);
    assert_eq!(mcp_method("tools/list"), McpMethod::ListTools);
    assert_eq!(mcp_method("tools/call"), McpMethod::CallTool);
    assert_eq!(mcp_method("resources/list"), McpMethod::Unknown);
    assert_eq!(METHOD_NOT_FOUND, -32601);
    assert_eq!(method_not_found("resources/list"), "method not found: resources/list");
}

#[test]
fn listings_unwrap_their_payload() {
    let state = JsonValue::Bool(true);
    match listing_result(Listing::ViewerState, AgentResponse::ViewerState { correlation_id: 1, state }) {
        ToolReply::Value(JsonValue::Bool(true)) => {}
        other => panic!("unexpected {other:?}"),
    }
    match listing_result(Listing::Assets, AgentResponse::CommandFailed { correlation_id: 1, error: "e".into() }) {
        ToolReply::Payload(AgentResponse::CommandFailed { .. }) => {}
        other => panic!("unexpected {other:?}"),
    }
}

#[test]
fn a_value_without_references_resolves_to_itself() {
    let value = JsonValue::Object(vec![
        ("a".to_string(), JsonValue::Array(vec![JsonValue::Number("1".into())])),
        ("b".to_string(), JsonValue::Object(vec![("$ref".to_string(), JsonValue::Number("0".into()))])),
    ]);
    let resolved = resolve_refs(&value, &[]).unwrap();
    assert_eq!(format!("{resolved:?}"), format!("{value:?}"));
}

#[test]
fn polling_one_subscription_leaves_the_others() {
    let mut host = HostState::new();
    host.record_subscription(1, filter(&[]), 0);
    host.record_subscription(2, filter(&[]), 0);
    host.route_response(AgentResponse::Batch { batch: batch(0, 1, vec![]) });
    assert!(matches!(host.poll_deltas(1), Ok(PollOutcome::Delivered { version: 1, .. })));
    assert_eq!(host.subscriptions[&1].cursor, 1);
    assert_eq!(host.subscriptions[&2].cursor, 0);
    assert_eq!(host.poll_deltas(9).unwrap_err(), "unknown subscription_id");
}
