use nightshade_viewer::agent::{
    AgentState, ChangeHits, CommandPlan, CommandRoute, ComponentValue, Entity, FrameSample, TransformMasks,
    compute_deltas, fail, plan_command, route_command, query,
};
use nightshade_viewer::json::JsonValue;
use nightshade_viewer::protocol::{AgentCommand, AgentResponse, Delta, EntityRef, SubscriptionFilter};
use nightshade_viewer::registry::{ComponentMasks, registry};

const NAME: u64 = 4;
const LIGHT: u64 = 32;

fn masks() -> ComponentMasks {
    ComponentMasks {
        local_transform: 1,
        parent: 2,
        name: NAME,
        visibility: 8,
        camera: 16,
        light: LIGHT,
        material_ref: 64,
        bounding_volume: 128,
        casts_shadow: 256,
        render_layer: 512,
    }
}

fn e(id: u32) -> Entity {
    Entity { id, generation: 0 }
}

fn value(entity: Entity, component: &str, text: &str) -> ComponentValue {
    ComponentValue { entity, component: component.to_string(), value: JsonValue::String(text.to_string()) }
}

fn phase(d: &Delta) -> u8 {
    match d {
        Delta::Spawned { .. } | Delta::Added { .. } => 0,
        Delta::Changed { .. } => 1,
        Delta::Removed { .. } | Delta::Despawned { .. } => 2,
    }
}

#[test]
fn deltas_come_creates_values_deletes() {
    let reg = registry(masks());
    let shadow = vec![(e(1), NAME), (e(2), NAME | LIGHT), (e(3), NAME)];
    let current = vec![(e(1), NAME | LIGHT), (e(2), NAME), (e(4), NAME)];
    let values = vec![value(e(1), "name", "one"), value(e(1), "light", "on"), value(e(4), "name", "four")];
    let changes = vec![ChangeHits {
        component: "name".to_string(),
        hits: vec![(e(1), JsonValue::String("uno".into())), (e(4), JsonValue::String("four".into()))],
    }];
    let deltas = compute_deltas(&values, &changes, &shadow, &current, &reg);
    let phases: Vec<u8> = deltas.iter().map(phase).collect();
    let mut sorted = phases.clone();
    sorted.sort();
    assert_eq!(phases, sorted);
    assert!(matches!(deltas[0], Delta::Spawned { entity: EntityRef { id: 4, .. }, .. }));
    assert!(matches!(deltas[1], Delta::Added { entity: EntityRef { id: 1, .. }, .. }));
    // The spawned entity's change hit is not reported as a change.
    assert_eq!(deltas.iter().filter(|d| matches!(d, Delta::Changed { .. })).count(), 1);
    assert!(matches!(deltas.last().unwrap(), Delta::Despawned { entity: EntityRef { id: 3, .. }, .. }));
    for d in &deltas {
        let origin = match d {
            Delta::Spawned { origin, .. }
            | Delta::Added { origin, .. }
            | Delta::Changed { origin, .. }
            | Delta::Removed { origin, .. }
            | Delta::Despawned { origin, .. } => *origin,
        };
        assert!(origin.is_none());
    }
}

#[test]
fn batches_are_contiguous_per_frame() {
    let reg = registry(masks());
    let mut state = AgentState::new();
    state.subscribe(1, SubscriptionFilter { component_types: vec![], entities: None });
    let frame = FrameSample { masks: vec![(e(1), NAME)], values: vec![value(e(1), "name", "a")], changes: vec![] };
    let first = state.collect(&frame, &reg);
    let second = state.collect(&frame, &reg);
    let base_target = |responses: &Vec<AgentResponse>| {
        responses
            .iter()
            .find_map(|r| match r {
                AgentResponse::Batch { batch } => Some((batch.base_version, batch.target_version)),
                _ => None,
            })
            .unwrap()
    };
    let (b1, t1) = base_target(&first);
    let (b2, t2) = base_target(&second);
    assert_eq!(t1, b1 + 1);
    assert_eq!(b2, t1);
    assert_eq!(t2, b2 + 1);
    assert!(matches!(first[0], AgentResponse::Subscribed { correlation_id: 1, .. }));
}

#[test]
fn stale_handles_are_refused() {
    let reg = registry(masks());
    let live = vec![(Entity { id: 5, generation: 2 }, NAME)];
    let engine = TransformMasks { local_transform: 1, global_transform: 1024, local_transform_dirty: 2048 };
    let stale = AgentCommand::DeleteEntity { entity: EntityRef { id: 5, generation: 1 } };
    assert!(plan_command(&live, &reg, engine, stale).is_err());
    let current = AgentCommand::DeleteEntity { entity: EntityRef { id: 5, generation: 2 } };
    assert!(matches!(plan_command(&live, &reg, engine, current), Ok(CommandPlan::Despawn { .. })));
    match fail(3, "no") {
        AgentResponse::CommandFailed { correlation_id: 3, error } => assert_eq!(error, "no"),
        _ => panic!(),
    }
}

#[test]
fn arriving_commands_are_routed() {
    let live = vec![(Entity { id: 3, generation: 1 }, NAME)];
    match route_command(&live, AgentCommand::SelectNode { entity: EntityRef { id: 3, generation: 1 } }) {
        CommandRoute::Select(entity) => assert_eq!(entity, Entity { id: 3, generation: 1 }),
        other => panic!("unexpected route {other:?}"),
    }
    assert!(matches!(
        route_command(&live, AgentCommand::SelectNode { entity: EntityRef { id: 3, generation: 0 } }),
        CommandRoute::NotLive
    ));
    match route_command(&live, AgentCommand::LoadGltf { uri: "a.glb".to_string() }) {
        CommandRoute::Load(uri) => assert_eq!(uri, "a.glb"),
        other => panic!("unexpected route {other:?}"),
    }
    assert!(matches!(
        route_command(&live, AgentCommand::ClearScene),
        CommandRoute::Queue(AgentCommand::ClearScene)
    ));
}

#[test]
fn a_query_naming_an_unknown_component_answers_nothing() {
    let reg = registry(masks());
    let live = vec![(e(1), NAME), (e(2), NAME | LIGHT)];
    assert!(query(&live, &reg, &vec!["no_such_component".to_string()]).is_empty());
    assert!(query(&live, &reg, &vec!["name".to_string(), "no_such_component".to_string()]).is_empty());
    assert_eq!(query(&live, &reg, &vec!["light".to_string()]), vec![EntityRef { id: 2, generation: 0 }]);
    assert_eq!(query(&live, &reg, &vec![]).len(), 2);
}
