//! The viewer's scene hierarchy walks: finding an entity by id, selection,
//! click-cycling from a model's root down to the picked leaf, and the scene
//! tree sent to the page.
use vstd::prelude::*;
use vstd::string::StringExecFns;

use crate::agent::Entity;
use crate::protocol::SceneNode;
use crate::seqs::{first_where, lemma_first_where, lemma_first_where_is, lemma_first_where_none};
use crate::text::{decimal, push_decimal};

verus! {

/// How many parent links a walk follows at most.
pub const MAX_WALK: usize = 64;

/// What the viewer reads of one engine entity.
#[derive(Debug)]
pub struct NodeInfo {
    pub entity: Entity,
    /// The entity's parent, if it has one.
    pub parent: Option<Entity>,
    /// The entity's name component, if it has one.
    pub name: Option<String>,
    /// Whether the entity renders a mesh.
    pub has_mesh: bool,
    /// Whether the entity has a local transform (is transformable).
    pub has_local_transform: bool,
}

/// The engine world as the viewer's walks read it: the live entities in the
/// engine's query order.
#[derive(Debug)]
pub struct SceneGraph {
    pub nodes: Vec<NodeInfo>,
}

/// The currently selected engine entity, and the engine's editor selection
/// that mirrors it: the entity whose bounding volume is outlined and the set
/// of selected entities.
#[derive(Debug)]
pub struct Selection {
    pub selected: Option<Entity>,
    pub bounding_volume_selected_entity: Option<Entity>,
    pub selected_entities: Vec<Entity>,
}

/// Whether a selection shows an entity (or nothing): the viewer's selection,
/// the outlined entity and the editor's selected set all agree on it.
pub open spec fn selection_shows(selection: Selection, entity: Option<Entity>) -> bool {
    &&& selection.selected == entity
    &&& selection.bounding_volume_selected_entity == entity
    &&& selection.selected_entities@ == match entity {
        Some(e) => seq![e],
        None => Seq::<Entity>::empty(),
    }
}

/// Pending pick plus the click-cycle state: repeated clicks on one spot walk
/// from the model root down to the leaf.
#[derive(Debug)]
pub struct Picking {
    pub pending: bool,
    pub last_leaf: Option<Entity>,
    pub last_root: Option<Entity>,
    pub cycle_depth: usize,
}

/// Set when the scene tree or the selection should be re-sent to the page.
#[derive(Debug)]
pub struct SceneSync {
    pub needs_tree: bool,
    pub needs_selection: bool,
}

/// Camera requests from the page: framing and the turntable toggle.
#[derive(Debug)]
pub struct CameraInput {
    pub frame_requested: bool,
    pub turntable: bool,
}

/// The predicate "this node is about the given entity".
pub open spec fn node_of(entity: Entity) -> spec_fn(NodeInfo) -> bool {
    |n: NodeInfo| n.entity == entity
}

/// An entity's parent in the world; none for a root or an unknown entity.
pub open spec fn parent_of(nodes: Seq<NodeInfo>, entity: Entity) -> Option<Entity> {
    match first_where(nodes, node_of(entity)) {
        Some(i) => nodes[i].parent,
        None => None,
    }
}

/// Looks up an entity's node.
fn find_node(graph: &SceneGraph, entity: Entity) -> (r: Option<usize>)
    ensures
        match r {
            Some(i) => first_where(graph.nodes@, node_of(entity)) == Some(i as int) && i < graph.nodes@.len(),
            None => first_where(graph.nodes@, node_of(entity)) is None,
        },
{
    proof {
        lemma_first_where(graph.nodes@, node_of(entity));
    }
    let mut i: usize = 0;
    while i < graph.nodes.len()
        invariant
            i <= graph.nodes@.len(),
            forall|j: int| 0 <= j < i ==> !(node_of(entity))(#[trigger] graph.nodes@[j]),
        decreases graph.nodes@.len() - i,
    {
        if graph.nodes[i].entity == entity {
            proof {
                lemma_first_where_is(graph.nodes@, node_of(entity), i as int);
            }
            return Some(i);
        }
        i += 1;
    }
    proof {
        lemma_first_where_none(graph.nodes@, node_of(entity));
    }
    None
}

/// Reads an entity's parent.
pub fn get_parent(graph: &SceneGraph, entity: Entity) -> (r: Option<Entity>)
    ensures
        r == parent_of(graph.nodes@, entity),
{
    match find_node(graph, entity) {
        Some(i) => graph.nodes[i].parent,
        None => None,
    }
}

/// The predicate "this node is transformable and has the given raw id".
pub open spec fn transformable_with_id(id: u32) -> spec_fn(NodeInfo) -> bool {
    |n: NodeInfo| n.has_local_transform && n.entity.id == id
}

/// The first transformable entity with a raw id, in query order.
pub open spec fn spec_find_entity_by_id(nodes: Seq<NodeInfo>, id: u32) -> Option<Entity> {
    match first_where(nodes, transformable_with_id(id)) {
        Some(i) => Some(nodes[i].entity),
        None => None,
    }
}

/// Finds a transformable entity by its raw id.
pub fn find_entity_by_id(graph: &SceneGraph, id: u32) -> (r: Option<Entity>)
    ensures
        r == spec_find_entity_by_id(graph.nodes@, id),
{
    proof {
        lemma_first_where(graph.nodes@, transformable_with_id(id));
    }
    let mut i: usize = 0;
    while i < graph.nodes.len()
        invariant
            i <= graph.nodes@.len(),
            forall|j: int| 0 <= j < i ==> !(transformable_with_id(id))(#[trigger] graph.nodes@[j]),
        decreases graph.nodes@.len() - i,
    {
        if graph.nodes[i].has_local_transform && graph.nodes[i].entity.id == id {
            proof {
                lemma_first_where_is(graph.nodes@, transformable_with_id(id), i as int);
            }
            return Some(graph.nodes[i].entity);
        }
        i += 1;
    }
    proof {
        lemma_first_where_none(graph.nodes@, transformable_with_id(id));
    }
    None
}

/// Sets the selection, mirrors it in the editor selection, and flags it for
/// the page.
pub fn select(selection: &mut Selection, sync: &mut SceneSync, entity: Option<Entity>)
    ensures
        selection_shows(*final(selection), entity),
        final(sync).needs_selection,
        final(sync).needs_tree == old(sync).needs_tree,
{
    selection.selected = entity;
    selection.bounding_volume_selected_entity = entity;
    let mut chosen: Vec<Entity> = Vec::new();
    if let Some(e) = entity {
        chosen.push(e);
    }
    selection.selected_entities = chosen;
    sync.needs_selection = true;
}

/// Selects the transformable entity with a raw id (from the scene tree), or
/// clears the selection when there is none.
pub fn select_by_id(graph: &SceneGraph, selection: &mut Selection, sync: &mut SceneSync, id: u32)
    ensures
        selection_shows(*final(selection), spec_find_entity_by_id(graph.nodes@, id)),
        final(sync).needs_selection,
        final(sync).needs_tree == old(sync).needs_tree,
{
    let entity = find_entity_by_id(graph, id);
    select(selection, sync, entity);
}

/// Climbs from an entity while its parent is one of the model's entities,
/// following at most [`MAX_WALK`] links from `steps` on.
pub open spec fn climb(nodes: Seq<NodeInfo>, ids: Seq<u32>, current: Entity, steps: nat) -> Entity
    decreases MAX_WALK - steps,
{
    if steps >= MAX_WALK {
        current
    } else {
        match parent_of(nodes, current) {
            Some(p) => if ids.contains(p.id) {
                climb(nodes, ids, p, steps + 1)
            } else {
                current
            },
            None => current,
        }
    }
}

/// Whether a list of entities holds one with a raw id.
fn holds_id(entities: &Vec<Entity>, id: u32) -> (r: bool)
    ensures
        r == Seq::new(entities@.len(), |i: int| entities@[i].id).contains(id),
{
    let ghost ids = Seq::new(entities@.len(), |i: int| entities@[i].id);
    let mut i: usize = 0;
    while i < entities.len()
        invariant
            i <= entities@.len(),
            ids == Seq::new(entities@.len(), |i: int| entities@[i].id),
            forall|j: int| 0 <= j < i ==> ids[j] != id,
        decreases entities@.len() - i,
    {
        if entities[i].id == id {
            assert(ids[i as int] == id);
            return true;
        }
        i += 1;
    }
    false
}

/// The raw ids of a list of entities.
pub open spec fn ids_of(entities: Seq<Entity>) -> Seq<u32> {
    Seq::new(entities.len(), |i: int| entities[i].id)
}

/// Walks up from a picked leaf while the parents stay inside the model, to
/// find the model group's root.
pub fn find_root(graph: &SceneGraph, leaf: Entity, model: &Vec<Entity>) -> (r: Entity)
    ensures
        r == climb(graph.nodes@, ids_of(model@), leaf, 0),
{
    let ghost ids = ids_of(model@);
    let mut current = leaf;
    let mut steps: usize = 0;
    while steps < MAX_WALK
        invariant
            steps <= MAX_WALK,
            ids == ids_of(model@),
            climb(graph.nodes@, ids, leaf, 0) == climb(graph.nodes@, ids, current, steps as nat),
        decreases MAX_WALK - steps,
    {
        match get_parent(graph, current) {
            Some(parent) => {
                if holds_id(model, parent.id) {
                    current = parent;
                    steps += 1;
                } else {
                    return current;
                }
            },
            None => {
                return current;
            },
        }
    }
    current
}

/// The entities passed walking up from `current` toward `root`, one parent
/// link at a time, at most [`MAX_WALK`] links from `steps` on.
pub open spec fn ancestry(nodes: Seq<NodeInfo>, root: Entity, current: Entity, steps: nat) -> Seq<Entity>
    decreases MAX_WALK - steps,
{
    if current == root || steps >= MAX_WALK {
        seq![]
    } else {
        match parent_of(nodes, current) {
            Some(p) => seq![p] + ancestry(nodes, root, p, steps + 1),
            None => seq![],
        }
    }
}

/// The chain from the root down to the leaf, root first.
pub open spec fn spec_chain_from_root(nodes: Seq<NodeInfo>, root: Entity, leaf: Entity) -> Seq<Entity> {
    (seq![leaf] + ancestry(nodes, root, leaf, 0)).reverse()
}

/// Builds the chain from the root down to the leaf (root first).
pub fn chain_from_root(graph: &SceneGraph, root: Entity, leaf: Entity) -> (r: Vec<Entity>)
    ensures
        r@ == spec_chain_from_root(graph.nodes@, root, leaf),
        r@.len() >= 1,
{
    let mut up: Vec<Entity> = Vec::new();
    up.push(leaf);
    let mut current = leaf;
    let mut steps: usize = 0;
    while current != root && steps < MAX_WALK
        invariant
            steps <= MAX_WALK,
            up@.len() >= 1,
            seq![leaf] + ancestry(graph.nodes@, root, leaf, 0) == up@ + ancestry(
                graph.nodes@,
                root,
                current,
                steps as nat,
            ),
        ensures
            up@ == seq![leaf] + ancestry(graph.nodes@, root, leaf, 0),
            up@.len() >= 1,
        decreases MAX_WALK - steps,
    {
        match get_parent(graph, current) {
            Some(parent) => {
                let ghost before = up@;
                up.push(parent);
                assert(before + ancestry(graph.nodes@, root, current, steps as nat) =~= up@ + ancestry(
                    graph.nodes@,
                    root,
                    parent,
                    (steps + 1) as nat,
                ));
                current = parent;
                steps += 1;
            },
            None => {
                assert(ancestry(graph.nodes@, root, current, steps as nat) =~= seq![]);
                assert(up@ + seq![] =~= up@);
                break;
            },
        }
    }
    let mut chain: Vec<Entity> = Vec::new();
    let mut k: usize = up.len();
    while k > 0
        invariant
            k <= up@.len(),
            chain@ =~= up@.subrange(k as int, up@.len() as int).reverse(),
        decreases k,
    {
        k -= 1;
        chain.push(up[k]);
        assert(chain@ =~= up@.subrange(k as int, up@.len() as int).reverse());
    }
    assert(up@.subrange(0, up@.len() as int) =~= up@);
    chain
}


/// Forgets the click cycle.
pub fn reset_cycle(picking: &mut Picking)
    ensures
        final(picking).last_leaf is None,
        final(picking).last_root is None,
        final(picking).cycle_depth == 0,
        final(picking).pending == old(picking).pending,
{
    picking.last_leaf = None;
    picking.last_root = None;
    picking.cycle_depth = 0;
}

/// How deep into the chain a click selects: one deeper than last time when
/// the same leaf under the same root is clicked while the selection is on its
/// chain (wrapping back to the root), else the root.
pub open spec fn cycle_depth_for(picking: Picking, selected: Option<Entity>, leaf: Entity, root: Entity, chain: Seq<Entity>) -> int {
    let same_target = picking.last_leaf == Some(leaf) && picking.last_root == Some(root);
    let on_chain = match selected {
        Some(s) => chain.contains(s),
        None => false,
    };
    if same_target && on_chain {
        (picking.cycle_depth + 1) % (chain.len() as int)
    } else {
        0
    }
}

/// Whether a list holds an entity.
fn holds_entity(entities: &Vec<Entity>, entity: Entity) -> (r: bool)
    ensures
        r == entities@.contains(entity),
{
    let mut i: usize = 0;
    while i < entities.len()
        invariant
            i <= entities@.len(),
            forall|j: int| 0 <= j < i ==> entities@[j] != entity,
        decreases entities@.len() - i,
    {
        if entities[i] == entity {
            assert(entities@[i as int] == entity);
            return true;
        }
        i += 1;
    }
    false
}

/// Selects along the chain from the model root down to a picked leaf:
/// repeated clicks on the same spot walk one level deeper each time.
pub fn cycle_select(
    graph: &SceneGraph,
    model: &Vec<Entity>,
    picking: &mut Picking,
    selection: &mut Selection,
    sync: &mut SceneSync,
    leaf: Entity,
)
    requires
        old(picking).cycle_depth < usize::MAX,
    ensures
        ({
            let root = climb(graph.nodes@, ids_of(model@), leaf, 0);
            let chain = spec_chain_from_root(graph.nodes@, root, leaf);
            let depth = cycle_depth_for(*old(picking), old(selection).selected, leaf, root, chain);
            &&& final(picking).last_leaf == Some(leaf)
            &&& final(picking).last_root == Some(root)
            &&& final(picking).cycle_depth == depth
            &&& final(picking).pending == old(picking).pending
            &&& selection_shows(*final(selection), Some(chain[depth]))
            &&& final(sync).needs_selection
            &&& final(sync).needs_tree == old(sync).needs_tree
        }),
{
    let root = find_root(graph, leaf, model);
    let chain = chain_from_root(graph, root, leaf);
    let same_target = picking.last_leaf == Some(leaf) && picking.last_root == Some(root);
    let on_chain = match selection.selected {
        Some(selected) => holds_entity(&chain, selected),
        None => false,
    };
    let depth = if same_target && on_chain {
        (picking.cycle_depth + 1) % chain.len()
    } else {
        0
    };
    picking.last_leaf = Some(leaf);
    picking.last_root = Some(root);
    picking.cycle_depth = depth;
    select(selection, sync, Some(chain[depth]));
}

/// A finished GPU pick: whether it hit geometry (the depth read back was
/// positive) and the raw id of the entity it hit, if any.
#[derive(Clone, Copy, Debug)]
pub struct PickHit {
    pub hit: bool,
    pub entity_id: Option<u32>,
}

/// The leaf a pick selects: the transformable entity with the hit id, when the
/// pick hit geometry.
pub open spec fn picked_leaf(nodes: Seq<NodeInfo>, pick: PickHit) -> Option<Entity> {
    if pick.hit {
        match pick.entity_id {
            Some(id) => spec_find_entity_by_id(nodes, id),
            None => None,
        }
    } else {
        None
    }
}

/// Applies a finished pick. Nothing happens without a pending pick or before
/// its result is in; a gizmo drag swallows the result. Hitting a model entity
/// selects along its chain; hitting the background clears the selection.
pub fn apply(
    graph: &SceneGraph,
    model: &Vec<Entity>,
    picking: &mut Picking,
    selection: &mut Selection,
    sync: &mut SceneSync,
    result: Option<PickHit>,
    gizmo_dragging: bool,
)
    requires
        old(picking).cycle_depth < usize::MAX,
    ensures
        !old(picking).pending || result is None ==> *final(picking) == *old(picking) && *final(selection)
            == *old(selection) && *final(sync) == *old(sync),
        old(picking).pending && result is Some && gizmo_dragging ==> !final(picking).pending
            && final(picking).last_leaf == old(picking).last_leaf && final(picking).last_root
            == old(picking).last_root && final(picking).cycle_depth == old(picking).cycle_depth
            && *final(selection) == *old(selection) && *final(sync) == *old(sync),
        old(picking).pending && result is Some && !gizmo_dragging ==> {
            let leaf = picked_leaf(graph.nodes@, result->Some_0);
            &&& !final(picking).pending
            &&& final(sync).needs_selection
            &&& final(sync).needs_tree == old(sync).needs_tree
            &&& match leaf {
                Some(leaf) => {
                    let root = climb(graph.nodes@, ids_of(model@), leaf, 0);
                    let chain = spec_chain_from_root(graph.nodes@, root, leaf);
                    let depth = cycle_depth_for(*old(picking), old(selection).selected, leaf, root, chain);
                    &&& final(picking).last_leaf == Some(leaf)
                    &&& final(picking).last_root == Some(root)
                    &&& final(picking).cycle_depth == depth
                    &&& selection_shows(*final(selection), Some(chain[depth]))
                },
                None => {
                    &&& final(picking).last_leaf is None
                    &&& final(picking).last_root is None
                    &&& final(picking).cycle_depth == 0
                    &&& selection_shows(*final(selection), None)
                },
            }
        },
{
    if !picking.pending {
        return;
    }
    let pick = match result {
        Some(pick) => pick,
        None => {
            return;
        },
    };
    picking.pending = false;
    if gizmo_dragging {
        return;
    }
    let leaf = if pick.hit {
        match pick.entity_id {
            Some(id) => find_entity_by_id(graph, id),
            None => None,
        }
    } else {
        None
    };
    match leaf {
        Some(leaf) => cycle_select(graph, model, picking, selection, sync, leaf),
        None => {
            reset_cycle(picking);
            select(selection, sync, None);
        },
    }
}

/// Counts the parent links from `current` up to `root` (or to an entity
/// without a parent), at most [`MAX_WALK`] in all, starting at `depth`.
pub open spec fn depth_walk(nodes: Seq<NodeInfo>, root: Option<Entity>, current: Entity, depth: nat) -> nat
    decreases MAX_WALK - depth,
{
    if root == Some(current) || depth >= MAX_WALK {
        depth
    } else {
        match parent_of(nodes, current) {
            Some(p) => depth_walk(nodes, root, p, depth + 1),
            None => depth,
        }
    }
}

/// An entity's depth below the model root in the scene tree.
pub fn depth_of(graph: &SceneGraph, entity: Entity, root: Option<Entity>) -> (r: u32)
    ensures
        r == depth_walk(graph.nodes@, root, entity, 0),
{
    let mut depth: u32 = 0;
    let mut current = entity;
    while root != Some(current) && depth < 64
        invariant
            depth <= 64,
            depth_walk(graph.nodes@, root, entity, 0) == depth_walk(graph.nodes@, root, current, depth as nat),
        decreases 64 - depth,
    {
        match get_parent(graph, current) {
            Some(parent) => {
                current = parent;
                depth += 1;
            },
            None => {
                return depth;
            },
        }
    }
    depth
}

/// The name a scene-tree row shows: the entity's name, or `Node <id>` when it
/// has none or an empty one.
pub open spec fn shown_name(nodes: Seq<NodeInfo>, entity: Entity) -> Seq<char> {
    match first_where(nodes, node_of(entity)) {
        Some(i) => match nodes[i].name {
            Some(name) => if name@.len() > 0 {
                name@
            } else {
                "Node "@ + decimal(entity.id as nat)
            },
            None => "Node "@ + decimal(entity.id as nat),
        },
        None => "Node "@ + decimal(entity.id as nat),
    }
}

/// Whether an entity renders a mesh.
pub open spec fn renders_mesh(nodes: Seq<NodeInfo>, entity: Entity) -> bool {
    match first_where(nodes, node_of(entity)) {
        Some(i) => nodes[i].has_mesh,
        None => false,
    }
}

/// The name a scene-tree row shows.
fn node_name(graph: &SceneGraph, entity: Entity) -> (r: String)
    ensures
        r@ == shown_name(graph.nodes@, entity),
{
    if let Some(i) = find_node(graph, entity) {
        if let Some(name) = &graph.nodes[i].name {
            if name.unicode_len() > 0 {
                return name.clone();
            }
        }
    }
    let mut fallback = String::from_str("Node ");
    push_decimal(&mut fallback, entity.id as u64);
    fallback
}

/// Whether `rows` is the scene tree of the model's entities: one row per
/// entity, in model order, with its id, shown name, depth and mesh flag.
pub open spec fn tree_rows(nodes: Seq<NodeInfo>, model: Seq<Entity>, root: Option<Entity>, rows: Seq<SceneNode>) -> bool {
    &&& rows.len() == model.len()
    &&& forall|k: int|
        0 <= k < rows.len() ==> {
            let e = model[k];
            &&& #[trigger] rows[k].id == e.id
            &&& rows[k].name@ == shown_name(nodes, e)
            &&& rows[k].depth == depth_walk(nodes, root, e, 0)
            &&& rows[k].has_mesh == renders_mesh(nodes, e)
        }
}

/// Builds the flattened scene tree of the model's entities, in model order.
pub fn build_tree(graph: &SceneGraph, model: &Vec<Entity>, root: Option<Entity>) -> (r: Vec<SceneNode>)
    ensures
        tree_rows(graph.nodes@, model@, root, r@),
{
    let mut rows: Vec<SceneNode> = Vec::new();
    let mut i: usize = 0;
    while i < model.len()
        invariant
            i <= model@.len(),
            tree_rows(graph.nodes@, model@.take(i as int), root, rows@),
        decreases model@.len() - i,
    {
        let entity = model[i];
        let has_mesh = match find_node(graph, entity) {
            Some(n) => graph.nodes[n].has_mesh,
            None => false,
        };
        let row = SceneNode {
            id: entity.id,
            name: node_name(graph, entity),
            depth: depth_of(graph, entity, root),
            has_mesh,
        };
        let ghost before = rows@;
        rows.push(row);
        proof {
            assert forall|k: int| 0 <= k < rows@.len() implies {
                let e = model@.take(i + 1)[k];
                &&& #[trigger] rows@[k].id == e.id
                &&& rows@[k].name@ == shown_name(graph.nodes@, e)
                &&& rows@[k].depth == depth_walk(graph.nodes@, root, e, 0)
                &&& rows@[k].has_mesh == renders_mesh(graph.nodes@, e)
            } by {
                if k < i {
                    assert(rows@[k] == before[k]);
                    assert(model@.take(i + 1)[k] == model@.take(i as int)[k]);
                }
            }
        }
        i += 1;
    }
    assert(model@.take(model@.len() as int) =~= model@);
    rows
}

/// What a scene sync sends to the page.
#[derive(Debug)]
pub struct SyncPosts {
    /// The scene tree, when it was flagged.
    pub tree: Option<Vec<SceneNode>>,
    /// Whether the selection detail is to be sent.
    pub selection: bool,
}

/// Sends the scene tree and the selection detail when flagged, and clears
/// the flags.
pub fn sync(graph: &SceneGraph, model: &Vec<Entity>, root: Option<Entity>, scene_sync: &mut SceneSync) -> (r: SyncPosts)
    ensures
        !final(scene_sync).needs_tree,
        !final(scene_sync).needs_selection,
        r.selection == old(scene_sync).needs_selection,
        match r.tree {
            Some(rows) => old(scene_sync).needs_tree && tree_rows(graph.nodes@, model@, root, rows@),
            None => !old(scene_sync).needs_tree,
        },
{
    let tree = if scene_sync.needs_tree {
        scene_sync.needs_tree = false;
        Some(build_tree(graph, model, root))
    } else {
        None
    };
    let selection = scene_sync.needs_selection;
    scene_sync.needs_selection = false;
    SyncPosts { tree, selection }
}

} // verus!
