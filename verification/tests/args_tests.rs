use nightshade_viewer::args::{
    Entity, LoadPolyhavenModel, Query, SubscriptionId, ToolCall, ToolStep, check_material_name, tool_step,
    unknown_tool,
};
use nightshade_viewer::protocol::{AgentCommand, EntityRef};

#[test]
fn polyhaven_model_defaults_to_two_k() {
    let step = tool_step(ToolCall::LoadPolyhavenModel(LoadPolyhavenModel { slug: "chair".into(), resolution: None }));
    match step {
        ToolStep::SpawnCommand(AgentCommand::LoadPolyhavenModel { slug, resolution }) => {
            assert_eq!(slug, "chair");
            assert_eq!(resolution, 2);
        }
        _ => panic!(),
    }
    let step = tool_step(ToolCall::LoadPolyhavenModel(LoadPolyhavenModel { slug: "chair".into(), resolution: Some(8) }));
    assert!(matches!(step, ToolStep::SpawnCommand(AgentCommand::LoadPolyhavenModel { resolution: 8, .. })));
}

#[test]
fn tools_map_to_requests_and_commands() {
    assert!(matches!(tool_step(ToolCall::ClearScene), ToolStep::Command(AgentCommand::ClearScene)));
    let entity = EntityRef { id: 3, generation: 1 };
    assert!(matches!(
        tool_step(ToolCall::SelectNode(Entity { entity })),
        ToolStep::Command(AgentCommand::SelectNode { entity: EntityRef { id: 3, generation: 1 } })
    ));
    assert!(matches!(
        tool_step(ToolCall::Query(Query { component_types: vec!["name".into()] })),
        ToolStep::Query { .. }
    ));
    assert!(matches!(
        tool_step(ToolCall::PollDeltas(SubscriptionId { subscription_id: 4 })),
        ToolStep::PollDeltas(4)
    ));
}

#[test]
fn tool_errors() {
    assert_eq!(unknown_tool("frobnicate"), "unknown tool: frobnicate");
    assert!(check_material_name("").is_err());
    assert_eq!(check_material_name("").unwrap_err(), "material name is required");
    assert!(check_material_name("steel").is_ok());
}
