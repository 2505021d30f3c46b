//! The relay's tool calls: each tool's arguments as plain data, and what the
//! relay sends the page for a call.
use vstd::prelude::*;
use vstd::string::StringExecFns;

use crate::json::JsonValue;
use crate::protocol::{AgentCommand, CorrelationId, EntityRef, LightKind, PrimitiveKind, SubscriptionFilter};

verus! {

/// A component bag: component names with their JSON values.
pub type Bag = Vec<(String, JsonValue)>;

/// No arguments.
#[derive(Debug)]
pub struct Empty {}

/// Component type names that an entity must all have.
#[derive(Debug)]
pub struct Query {
    pub component_types: Vec<String>,
}

/// One entity's named components.
#[derive(Debug)]
pub struct GetComponents {
    pub entity: EntityRef,
    pub component_types: Vec<String>,
}

/// A component bag to spawn an entity with.
#[derive(Debug)]
pub struct Spawn {
    pub components: Bag,
}

/// A component bag to write onto an entity.
#[derive(Debug)]
pub struct SetComponents {
    pub entity: EntityRef,
    pub components: Bag,
}

/// Components to take off an entity.
#[derive(Debug)]
pub struct RemoveComponents {
    pub entity: EntityRef,
    pub component_types: Vec<String>,
}

/// A child and its new parent; none detaches it to the scene root.
#[derive(Debug)]
pub struct Reparent {
    pub child: EntityRef,
    pub new_parent: Option<EntityRef>,
}

/// One entity.
#[derive(Debug)]
pub struct Entity {
    pub entity: EntityRef,
}

/// A glTF or GLB to load.
#[derive(Debug)]
pub struct LoadGltf {
    pub uri: String,
}

/// A Polyhaven model and its texture resolution in k (two when absent).
#[derive(Debug)]
pub struct LoadPolyhavenModel {
    pub slug: String,
    pub resolution: Option<u32>,
}

/// A primitive to spawn and the components applied at spawn.
#[derive(Debug)]
pub struct AddPrimitive {
    pub kind: PrimitiveKind,
    pub components: Bag,
}

/// A light to spawn and the components applied at spawn.
#[derive(Debug)]
pub struct AddLight {
    pub kind: LightKind,
    pub components: Bag,
}

/// A subscription's id.
#[derive(Debug)]
pub struct SubscriptionId {
    pub subscription_id: u64,
}

/// One op of a batch: a tool name and its arguments.
#[derive(Debug)]
pub struct Op {
    pub tool: String,
    pub arguments: JsonValue,
}

/// A list of tool calls run in one round trip.
#[derive(Debug)]
pub struct Batch {
    pub ops: Vec<Op>,
}

/// The texture resolution a Polyhaven model loads at when none is given.
pub const DEFAULT_MODEL_RESOLUTION: u32 = 2;

/// A tool call whose arguments have been read, for the tools whose arguments
/// are plain data.
#[derive(Debug)]
pub enum ToolCall {
    ListComponentTypes,
    Query(Query),
    GetComponents(GetComponents),
    SpawnEntity(Spawn),
    SetComponents(SetComponents),
    RemoveComponents(RemoveComponents),
    Reparent(Reparent),
    ClearScene,
    DeleteEntity(Entity),
    SelectNode(Entity),
    SetActiveCamera(Entity),
    LoadGltf(LoadGltf),
    LoadPolyhavenModel(LoadPolyhavenModel),
    AddPrimitive(AddPrimitive),
    AddLight(AddLight),
    GetViewerState,
    ListMaterials,
    ListAssets,
    Subscribe(SubscriptionFilter),
    PollDeltas(SubscriptionId),
    Unsubscribe(SubscriptionId),
    Batch(Batch),
}

/// What the relay does for a tool call.
#[derive(Debug)]
pub enum ToolStep {
    /// Ask the page for the registry.
    ListComponentTypes,
    /// Ask the page which entities carry all the named components.
    Query { component_types: Vec<String> },
    /// Ask the page for one entity's components.
    GetComponents { entity: EntityRef, component_types: Vec<String> },
    /// Send a command and answer with the version it landed at.
    Command(AgentCommand),
    /// Send a spawning command and answer with the roots it spawned.
    SpawnCommand(AgentCommand),
    /// Ask the page for its viewer state.
    GetViewerState,
    /// Ask the page for its materials.
    ListMaterials,
    /// Ask the page for its asset catalog.
    ListAssets,
    /// Subscribe with a filter.
    Subscribe(SubscriptionFilter),
    /// Poll a subscription.
    PollDeltas(u64),
    /// Tear a subscription down.
    Unsubscribe(u64),
    /// Run a batch of ops.
    Batch(Batch),
}

/// What the relay does for each tool call: the request, the command (and
/// whether it spawns), or the relay-side work.
pub open spec fn spec_tool_step(call: ToolCall) -> ToolStep {
    match call {
        ToolCall::ListComponentTypes => ToolStep::ListComponentTypes,
        ToolCall::Query(q) => ToolStep::Query { component_types: q.component_types },
        ToolCall::GetComponents(g) => ToolStep::GetComponents {
            entity: g.entity,
            component_types: g.component_types,
        },
        ToolCall::SpawnEntity(s) => ToolStep::Command(AgentCommand::SpawnEntity { components: s.components }),
        ToolCall::SetComponents(s) => ToolStep::Command(
            AgentCommand::SetComponents { entity: s.entity, components: s.components },
        ),
        ToolCall::RemoveComponents(r) => ToolStep::Command(
            AgentCommand::RemoveComponents { entity: r.entity, component_types: r.component_types },
        ),
        ToolCall::Reparent(r) => ToolStep::Command(
            AgentCommand::Reparent { child: r.child, new_parent: r.new_parent },
        ),
        ToolCall::ClearScene => ToolStep::Command(AgentCommand::ClearScene),
        ToolCall::DeleteEntity(e) => ToolStep::Command(AgentCommand::DeleteEntity { entity: e.entity }),
        ToolCall::SelectNode(e) => ToolStep::Command(AgentCommand::SelectNode { entity: e.entity }),
        ToolCall::SetActiveCamera(e) => ToolStep::Command(AgentCommand::SetActiveCamera { entity: e.entity }),
        ToolCall::LoadGltf(l) => ToolStep::SpawnCommand(AgentCommand::LoadGltf { uri: l.uri }),
        ToolCall::LoadPolyhavenModel(l) => ToolStep::SpawnCommand(
            AgentCommand::LoadPolyhavenModel {
                slug: l.slug,
                resolution: match l.resolution {
                    Some(r) => r,
                    None => DEFAULT_MODEL_RESOLUTION,
                },
            },
        ),
        ToolCall::AddPrimitive(a) => ToolStep::SpawnCommand(
            AgentCommand::AddPrimitive { kind: a.kind, components: a.components },
        ),
        ToolCall::AddLight(a) => ToolStep::SpawnCommand(
            AgentCommand::AddLight { kind: a.kind, components: a.components },
        ),
        ToolCall::GetViewerState => ToolStep::GetViewerState,
        ToolCall::ListMaterials => ToolStep::ListMaterials,
        ToolCall::ListAssets => ToolStep::ListAssets,
        ToolCall::Subscribe(f) => ToolStep::Subscribe(f),
        ToolCall::PollDeltas(s) => ToolStep::PollDeltas(s.subscription_id),
        ToolCall::Unsubscribe(s) => ToolStep::Unsubscribe(s.subscription_id),
        ToolCall::Batch(b) => ToolStep::Batch(b),
    }
}

/// Decides what the relay does for a tool call.
pub fn tool_step(call: ToolCall) -> (r: ToolStep)
    ensures
        r == spec_tool_step(call),
{
    match call {
        ToolCall::ListComponentTypes => ToolStep::ListComponentTypes,
        ToolCall::Query(q) => ToolStep::Query { component_types: q.component_types },
        ToolCall::GetComponents(g) => ToolStep::GetComponents {
            entity: g.entity,
            component_types: g.component_types,
        },
        ToolCall::SpawnEntity(s) => ToolStep::Command(AgentCommand::SpawnEntity { components: s.components }),
        ToolCall::SetComponents(s) => ToolStep::Command(
            AgentCommand::SetComponents { entity: s.entity, components: s.components },
        ),
        ToolCall::RemoveComponents(r) => ToolStep::Command(
            AgentCommand::RemoveComponents { entity: r.entity, component_types: r.component_types },
        ),
        ToolCall::Reparent(r) => ToolStep::Command(
            AgentCommand::Reparent { child: r.child, new_parent: r.new_parent },
        ),
        ToolCall::ClearScene => ToolStep::Command(AgentCommand::ClearScene),
        ToolCall::DeleteEntity(e) => ToolStep::Command(AgentCommand::DeleteEntity { entity: e.entity }),
        ToolCall::SelectNode(e) => ToolStep::Command(AgentCommand::SelectNode { entity: e.entity }),
        ToolCall::SetActiveCamera(e) => ToolStep::Command(AgentCommand::SetActiveCamera { entity: e.entity }),
        ToolCall::LoadGltf(l) => ToolStep::SpawnCommand(AgentCommand::LoadGltf { uri: l.uri }),
        ToolCall::LoadPolyhavenModel(l) => {
            let resolution = match l.resolution {
                Some(r) => r,
                None => DEFAULT_MODEL_RESOLUTION,
            };
            ToolStep::SpawnCommand(AgentCommand::LoadPolyhavenModel { slug: l.slug, resolution })
        },
        ToolCall::AddPrimitive(a) => ToolStep::SpawnCommand(
            AgentCommand::AddPrimitive { kind: a.kind, components: a.components },
        ),
        ToolCall::AddLight(a) => ToolStep::SpawnCommand(
            AgentCommand::AddLight { kind: a.kind, components: a.components },
        ),
        ToolCall::GetViewerState => ToolStep::GetViewerState,
        ToolCall::ListMaterials => ToolStep::ListMaterials,
        ToolCall::ListAssets => ToolStep::ListAssets,
        ToolCall::Subscribe(f) => ToolStep::Subscribe(f),
        ToolCall::PollDeltas(s) => ToolStep::PollDeltas(s.subscription_id),
        ToolCall::Unsubscribe(s) => ToolStep::Unsubscribe(s.subscription_id),
        ToolCall::Batch(b) => ToolStep::Batch(b),
    }
}

/// The error for a tool the relay does not know.
pub open spec fn unknown_tool_message(name: Seq<char>) -> Seq<char> {
    "unknown tool: "@ + name
}

/// Builds the error for a tool the relay does not know.
pub fn unknown_tool(name: &str) -> (r: String)
    ensures
        r@ == unknown_tool_message(name@),
{
    let mut m = String::from_str("unknown tool: ");
    m.append(name);
    m
}

/// The error for a material with no name.
pub open spec fn material_name_required_message() -> Seq<char> {
    "material name is required"@
}

/// Checks a material's name before it is sent: an empty name is refused.
pub fn check_material_name(name: &str) -> (r: Result<(), String>)
    ensures
        name@.len() == 0 ==> r is Err && r->Err_0@ == material_name_required_message(),
        name@.len() > 0 ==> r is Ok,
{
    if name.unicode_len() == 0 {
        Err(String::from_str("material name is required"))
    } else {
        Ok(())
    }
}

} // verus!
