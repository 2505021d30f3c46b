//! Wire types shared by the page, the worker and the agent host.
use vstd::prelude::*;

use crate::json::{JsonValue, JsonView, duplicate_pairs, pairs_view};

verus! {

/// Envelope field carrying the serialized message in every `postMessage`.
pub const MESSAGE_KEY: &'static str = "message";

/// Envelope field carrying the transferred `OffscreenCanvas` (on `Init` only).
pub const CANVAS_KEY: &'static str = "canvas";

/// Envelope field carrying transferred binary asset bytes (drag-drop).
pub const BYTES_KEY: &'static str = "bytes";

/// Envelope field carrying the transferred glTF bytes of a multi-file bundle.
pub const GLTF_KEY: &'static str = "gltf";

/// Envelope field carrying a `{ name: Uint8Array }` object of bundle resources.
pub const RESOURCES_KEY: &'static str = "resources";

/// What a dropped binary payload is.
#[derive(Clone, Copy, Debug, PartialEq, Eq, Structural)]
pub enum AssetKind {
    /// A glTF or GLB model.
    Model,
    /// An HDR environment map (loaded as the skybox and image-based light).
    Hdri,
}

/// Which transform gizmo the manipulation handles show.
#[derive(Clone, Copy, Debug, PartialEq, Eq, Structural)]
pub enum GizmoKind {
    Translate,
    Rotate,
    Scale,
}

/// A parametric primitive mesh the viewer can spawn from the Add menu.
#[derive(Clone, Copy, Debug, PartialEq, Eq, Structural)]
pub enum PrimitiveKind {
    Cube,
    Sphere,
    Cylinder,
    Cone,
    Torus,
    Plane,
}

/// A light the viewer can spawn from the Add menu.
#[derive(Clone, Copy, Debug, PartialEq, Eq, Structural)]
pub enum LightKind {
    Directional,
    Point,
    Spot,
}

/// Lifecycle phase of a forwarded touch contact.
#[derive(Clone, Copy, Debug, PartialEq, Eq, Structural)]
pub enum TouchPhase {
    Started,
    Moved,
    Ended,
    Cancelled,
}

/// Viewport shading mode.
#[derive(Clone, Copy, Debug, PartialEq, Eq, Structural)]
pub enum ShadingMode {
    Rendered,
    Solid,
    Flat,
    Wireframe,
}

/// PBR channel debug view.
#[derive(Clone, Copy, Debug, PartialEq, Eq, Structural)]
pub enum PbrDebug {
    Off,
    BaseColor,
    Normal,
    Metallic,
    Roughness,
    Occlusion,
    Emissive,
}

/// Tone mapping operator.
#[derive(Clone, Copy, Debug, PartialEq, Eq, Structural)]
pub enum Tonemap {
    Aces,
    Reinhard,
    Uncharted2,
    AgX,
    Neutral,
    /// No tone mapping (`None` on the wire).
    Off,
}

/// One row of the flattened scene tree.
#[derive(Debug)]
pub struct SceneNode {
    pub id: u32,
    pub name: String,
    pub depth: u32,
    pub has_mesh: bool,
}

/// A Khronos sample-asset entry for the browser grid.
#[derive(Debug)]
pub struct KhronosEntry {
    pub name: String,
    pub label: String,
    pub thumbnail: Option<String>,
}

/// A Polyhaven HDRI or model entry for the browser grid.
#[derive(Debug)]
pub struct PolyhavenEntry {
    pub slug: String,
    pub name: String,
    pub thumbnail: String,
}

/// A full generational entity handle as it crosses the agent boundary. A
/// reused slot reads as a different handle, so a command or read against a
/// stale handle fails rather than hitting the new occupant.
#[derive(Clone, Copy, Debug, PartialEq, Eq, Structural)]
pub struct EntityRef {
    pub id: u32,
    pub generation: u32,
}

/// Correlation id for request/response matching.
pub type CorrelationId = u64;

/// The host-assigned subscription handle.
pub type SubscriptionId = u64;

/// The collection system's own monotonic batch counter.
pub type Version = u64;

/// Whether the generic component bag may carry a component.
#[derive(Debug)]
pub enum WritePolicyInfo {
    /// Plain data: the bag may carry it.
    Free,
    /// A named command owns this component's cascade.
    Owned { command: String },
    /// A system computes this component; nothing writes it.
    Derived,
}

/// One registry entry as the agent discovers it.
#[derive(Debug)]
pub struct ComponentInfo {
    pub name: String,
    pub write_policy: WritePolicyInfo,
    /// Structural shape of the component's value.
    pub schema: JsonValue,
    /// A concrete sample value.
    pub example: JsonValue,
}

/// Which components and optionally which entities a subscription covers.
#[derive(Debug)]
pub struct SubscriptionFilter {
    pub component_types: Vec<String>,
    pub entities: Option<Vec<EntityRef>>,
}

/// The names a filter lists.
pub open spec fn names_view(names: Seq<String>) -> Seq<Seq<char>> {
    Seq::new(names.len(), |i: int| names[i]@)
}

/// A digest of a subscribed slice at a stated version.
#[derive(Clone, Copy, Debug, PartialEq, Eq, Structural)]
pub struct Checksum {
    pub version: Version,
    pub digest: u64,
}

/// The five delta kinds, emitted in the order creates, values, deletes.
#[derive(Debug)]
pub enum Delta {
    Changed { entity: EntityRef, component: String, value: JsonValue, origin: Option<CorrelationId> },
    Added { entity: EntityRef, component: String, value: JsonValue, origin: Option<CorrelationId> },
    Removed { entity: EntityRef, component: String, origin: Option<CorrelationId> },
    Spawned {
        entity: EntityRef,
        components: Vec<(String, JsonValue)>,
        origin: Option<CorrelationId>,
    },
    Despawned { entity: EntityRef, origin: Option<CorrelationId> },
}

/// The model of a [`Delta`].
pub enum DeltaView {
    Changed { entity: EntityRef, component: Seq<char>, value: JsonView, origin: Option<u64> },
    Added { entity: EntityRef, component: Seq<char>, value: JsonView, origin: Option<u64> },
    Removed { entity: EntityRef, component: Seq<char>, origin: Option<u64> },
    Spawned { entity: EntityRef, components: Seq<(Seq<char>, JsonView)>, origin: Option<u64> },
    Despawned { entity: EntityRef, origin: Option<u64> },
}

impl DeltaView {
    /// The component a per-component delta is about.
    pub open spec fn component_name(self) -> Option<Seq<char>> {
        match self {
            DeltaView::Changed { component, .. } => Some(component),
            DeltaView::Added { component, .. } => Some(component),
            DeltaView::Removed { component, .. } => Some(component),
            _ => None,
        }
    }
}

impl View for Delta {
    type V = DeltaView;

    open spec fn view(&self) -> DeltaView {
        match self {
            Delta::Changed { entity, component, value, origin } => DeltaView::Changed {
                entity: *entity,
                component: component@,
                value: value@,
                origin: *origin,
            },
            Delta::Added { entity, component, value, origin } => DeltaView::Added {
                entity: *entity,
                component: component@,
                value: value@,
                origin: *origin,
            },
            Delta::Removed { entity, component, origin } => DeltaView::Removed {
                entity: *entity,
                component: component@,
                origin: *origin,
            },
            Delta::Spawned { entity, components, origin } => DeltaView::Spawned {
                entity: *entity,
                components: pairs_view(components@),
                origin: *origin,
            },
            Delta::Despawned { entity, origin } => DeltaView::Despawned {
                entity: *entity,
                origin: *origin,
            },
        }
    }
}

impl Delta {
    /// A deep copy.
    pub fn duplicate(&self) -> (r: Delta)
        ensures
            r@ == self@,
    {
        match self {
            Delta::Changed { entity, component, value, origin } => Delta::Changed {
                entity: *entity,
                component: component.clone(),
                value: value.duplicate(),
                origin: *origin,
            },
            Delta::Added { entity, component, value, origin } => Delta::Added {
                entity: *entity,
                component: component.clone(),
                value: value.duplicate(),
                origin: *origin,
            },
            Delta::Removed { entity, component, origin } => Delta::Removed {
                entity: *entity,
                component: component.clone(),
                origin: *origin,
            },
            Delta::Spawned { entity, components, origin } => Delta::Spawned {
                entity: *entity,
                components: duplicate_pairs(components),
                origin: *origin,
            },
            Delta::Despawned { entity, origin } => Delta::Despawned { entity: *entity, origin: *origin },
        }
    }
}

/// The models of a list of deltas.
pub open spec fn deltas_view(deltas: Seq<Delta>) -> Seq<DeltaView> {
    Seq::new(deltas.len(), |i: int| deltas[i]@)
}

/// One frame's emission. Contiguous per subscriber (`next.base == prev.target`).
#[derive(Debug)]
pub struct DeltaBatch {
    pub base_version: Version,
    pub target_version: Version,
    pub deltas: Vec<Delta>,
    pub checksum: Option<Checksum>,
}

/// The model of a [`DeltaBatch`].
pub struct DeltaBatchView {
    pub base_version: Version,
    pub target_version: Version,
    pub deltas: Seq<DeltaView>,
    pub checksum: Option<Checksum>,
}

impl View for DeltaBatch {
    type V = DeltaBatchView;

    open spec fn view(&self) -> DeltaBatchView {
        DeltaBatchView {
            base_version: self.base_version,
            target_version: self.target_version,
            deltas: deltas_view(self.deltas@),
            checksum: self.checksum,
        }
    }
}

/// The models of a list of batches.
pub open spec fn batches_view(batches: Seq<DeltaBatch>) -> Seq<DeltaBatchView> {
    Seq::new(batches.len(), |i: int| batches[i]@)
}

/// One entity's subscribed slice in a snapshot.
#[derive(Debug)]
pub struct SnapshotEntity {
    pub entity: EntityRef,
    pub components: Vec<(String, JsonValue)>,
}

/// A full point-in-time view of the subscribed slice.
#[derive(Debug)]
pub struct Snapshot {
    pub version: Version,
    pub entities: Vec<SnapshotEntity>,
}

/// The model of a snapshot: its version and, per entity, the named values.
pub open spec fn snapshot_entities_view(entities: Seq<SnapshotEntity>) -> Seq<(EntityRef, Seq<(Seq<char>, JsonView)>)> {
    Seq::new(entities.len(), |i: int| (entities[i].entity, pairs_view(entities[i].components@)))
}

/// A read against a stale handle returns `NotLive`, never the new occupant's data.
#[derive(Debug)]
pub enum GetResult {
    Live { entity: EntityRef, components: Vec<(String, JsonValue)> },
    NotLive { entity: EntityRef },
}

/// The command set the agent may issue.
#[derive(Debug)]
pub enum AgentCommand {
    Reparent { child: EntityRef, new_parent: Option<EntityRef> },
    DeleteEntity { entity: EntityRef },
    ClearScene,
    SelectNode { entity: EntityRef },
    SetActiveCamera { entity: EntityRef },
    LoadGltf { uri: String },
    LoadPolyhavenModel { slug: String, resolution: u32 },
    AddPrimitive { kind: PrimitiveKind, components: Vec<(String, JsonValue)> },
    AddLight { kind: LightKind, components: Vec<(String, JsonValue)> },
    SpawnEntity { components: Vec<(String, JsonValue)> },
    SetComponents { entity: EntityRef, components: Vec<(String, JsonValue)> },
    RemoveComponents { entity: EntityRef, component_types: Vec<String> },
}

/// Worker to host.
#[derive(Debug)]
pub enum AgentResponse {
    ComponentTypes { correlation_id: CorrelationId, components: Vec<ComponentInfo> },
    QueryResult { correlation_id: CorrelationId, entities: Vec<EntityRef> },
    GetResult { correlation_id: CorrelationId, result: GetResult },
    /// A command landed, at the version its last effect lands.
    CommandApplied { correlation_id: CorrelationId, version: Version },
    /// An additive load finished, reporting the spawned root handles.
    Loaded { correlation_id: CorrelationId, version: Version, roots: Vec<EntityRef> },
    CommandFailed { correlation_id: CorrelationId, error: String },
    CommandProgress { correlation_id: CorrelationId, stage: String },
    Subscribed { correlation_id: CorrelationId, subscription_id: SubscriptionId, snapshot: Snapshot },
    Unsubscribed { correlation_id: CorrelationId, subscription_id: SubscriptionId },
    ViewerState { correlation_id: CorrelationId, state: JsonValue },
    Materials { correlation_id: CorrelationId, materials: JsonValue },
    Assets { correlation_id: CorrelationId, assets: JsonValue },
    /// One batch per tracking-on frame.
    Batch { batch: DeltaBatch },
    Replay { subscription_id: SubscriptionId, batches: Vec<DeltaBatch> },
    Resnapshot { subscription_id: SubscriptionId, snapshot: Snapshot },
}

/// The correlation id a response answers, if it answers a request.
pub open spec fn spec_response_correlation(response: AgentResponse) -> Option<CorrelationId> {
    match response {
        AgentResponse::ComponentTypes { correlation_id, .. } => Some(correlation_id),
        AgentResponse::QueryResult { correlation_id, .. } => Some(correlation_id),
        AgentResponse::GetResult { correlation_id, .. } => Some(correlation_id),
        AgentResponse::CommandApplied { correlation_id, .. } => Some(correlation_id),
        AgentResponse::Loaded { correlation_id, .. } => Some(correlation_id),
        AgentResponse::CommandFailed { correlation_id, .. } => Some(correlation_id),
        AgentResponse::CommandProgress { correlation_id, .. } => Some(correlation_id),
        AgentResponse::Subscribed { correlation_id, .. } => Some(correlation_id),
        AgentResponse::Unsubscribed { correlation_id, .. } => Some(correlation_id),
        AgentResponse::ViewerState { correlation_id, .. } => Some(correlation_id),
        AgentResponse::Materials { correlation_id, .. } => Some(correlation_id),
        AgentResponse::Assets { correlation_id, .. } => Some(correlation_id),
        AgentResponse::Batch { .. } => None,
        AgentResponse::Replay { .. } => None,
        AgentResponse::Resnapshot { .. } => None,
    }
}

/// Reads the correlation id a response answers.
pub fn response_correlation(response: &AgentResponse) -> (r: Option<CorrelationId>)
    ensures
        r == spec_response_correlation(*response),
{
    match response {
        AgentResponse::ComponentTypes { correlation_id, .. }
        | AgentResponse::QueryResult { correlation_id, .. }
        | AgentResponse::GetResult { correlation_id, .. }
        | AgentResponse::CommandApplied { correlation_id, .. }
        | AgentResponse::Loaded { correlation_id, .. }
        | AgentResponse::CommandFailed { correlation_id, .. }
        | AgentResponse::CommandProgress { correlation_id, .. }
        | AgentResponse::Subscribed { correlation_id, .. }
        | AgentResponse::Unsubscribed { correlation_id, .. }
        | AgentResponse::ViewerState { correlation_id, .. }
        | AgentResponse::Materials { correlation_id, .. }
        | AgentResponse::Assets { correlation_id, .. } => Some(*correlation_id),
        AgentResponse::Batch { .. } | AgentResponse::Replay { .. } | AgentResponse::Resnapshot {
            ..
        } => None,
    }
}

} // verus!
