//! The scene context: an archetype store of entities (each table holds the
//! entities of one component mask, with a column per stored component), the
//! locations and generations that keep stale handles from reaching new
//! occupants, and the hierarchy queries over parent links.
use vstd::prelude::*;

use crate::seqs::{first_where, lemma_first_where_is, lemma_first_where_none};

verus! {

/// The camera component's mask bit.
pub const CAMERA: u32 = 2;
/// The global-transform component's mask bit.
pub const GLOBAL_TRANSFORM: u32 = 4;
/// The local-transform component's mask bit.
pub const LOCAL_TRANSFORM: u32 = 8;
/// The line-list component's mask bit.
pub const LINES: u32 = 16;
/// The quad-list component's mask bit.
pub const QUADS: u32 = 32;
/// The name component's mask bit.
pub const NAME: u32 = 64;
/// The parent component's mask bit.
pub const PARENT: u32 = 128;

/// An entity: an index into storage and a generation that tells a reused
/// index's occupants apart.
#[derive(Clone, Copy, Debug, PartialEq, Eq, Structural)]
pub struct EntityId {
    pub id: u32,
    pub generation: u32,
}

/// An entity's name.
#[derive(Clone, Debug)]
pub struct Name(pub String);

/// An entity's parent.
#[derive(Clone, Copy, Debug, PartialEq, Eq, Structural)]
pub struct Parent(pub EntityId);

/// Marks an entity as visible.
#[derive(Clone, Copy, Debug, PartialEq, Eq, Structural)]
pub struct Visible;

/// Marks the active camera.
#[derive(Clone, Copy, Debug, PartialEq, Eq, Structural)]
pub struct ActiveCamera;

/// Where an entity's index currently lives: its generation, its table and
/// row, and whether the index is in use.
#[derive(Clone, Copy, Debug, PartialEq, Eq, Structural)]
pub struct EntityLocation {
    pub generation: u32,
    pub table_index: u16,
    pub array_index: u16,
    pub allocated: bool,
}

/// The location of every entity index.
#[derive(Debug)]
pub struct EntityLocations {
    pub locations: Vec<EntityLocation>,
}

/// Hands out entity indices, reusing freed ones with their next generation.
#[derive(Debug)]
pub struct EntityAllocator {
    pub next_id: u32,
    pub free_ids: Vec<(u32, u32)>,
}

/// One table: the entities of one component mask, row by row, with a
/// column for each stored component the mask holds.
#[derive(Debug)]
pub struct ComponentArrays {
    pub name: Vec<Name>,
    pub parent: Vec<Parent>,
    pub entity_indices: Vec<EntityId>,
    pub mask: u32,
}

/// The scene context's tables and entity bookkeeping.
#[derive(Debug)]
pub struct Context {
    pub entity_locations: EntityLocations,
    pub tables: Vec<ComponentArrays>,
    pub allocator: EntityAllocator,
}

/// Whether a mask holds every bit of another.
pub open spec fn has_all(mask: u32, wanted: u32) -> bool {
    mask & wanted == wanted
}

/// The entity at a row of a table is this entity, live, at this place.
pub open spec fn located(locations: Seq<EntityLocation>, e: EntityId, t: int, a: int) -> bool {
    &&& e.id < locations.len()
    &&& locations[e.id as int] == EntityLocation {
        generation: e.generation,
        table_index: t as u16,
        array_index: a as u16,
        allocated: true,
    }
}

impl Context {
    /// The store's invariant: the columns match the rows; every row's entity
    /// is located at that row; every allocated location names a row holding
    /// that entity; table positions fit the location fields.
    pub open spec fn well_formed(&self) -> bool {
        let tables = self.tables@;
        let locations = self.entity_locations.locations@;
        &&& tables.len() <= 0x10000
        &&& forall|t: int|
            0 <= t < tables.len() ==> {
                let table = #[trigger] tables[t];
                &&& table.entity_indices@.len() <= 0x10000
                &&& table.name@.len() == (if table.mask & NAME != 0 { table.entity_indices@.len() } else { 0 })
                &&& table.parent@.len() == (if table.mask & PARENT != 0 { table.entity_indices@.len() } else { 0 })
            }
        &&& forall|t: int, a: int|
            0 <= t < tables.len() && 0 <= a < tables[t].entity_indices@.len() ==> located(
                locations,
                #[trigger] tables[t].entity_indices@[a],
                t,
                a,
            )
        &&& forall|id: int|
            0 <= id < locations.len() && (#[trigger] locations[id]).allocated ==> {
                let loc = locations[id];
                &&& (loc.table_index as int) < tables.len()
                &&& (loc.array_index as int) < tables[loc.table_index as int].entity_indices@.len()
                &&& tables[loc.table_index as int].entity_indices@[loc.array_index as int] == EntityId {
                    id: id as u32,
                    generation: loc.generation,
                }
            }
        &&& self.allocator.well_formed(locations)
    }
}

impl EntityAllocator {
    /// The allocator's invariant: fresh indices start at `next_id` and are not
    /// in use; freed indices lie below it, are distinct and are not in use.
    pub open spec fn well_formed(&self, locations: Seq<EntityLocation>) -> bool {
        let free = self.free_ids@;
        &&& self.next_id <= locations.len()
        &&& forall|id: int| self.next_id <= id < locations.len() ==> #[trigger] locations[id] == EntityLocation {
            generation: 0,
            table_index: 0,
            array_index: 0,
            allocated: false,
        }
        &&& forall|k: int|
            0 <= k < free.len() ==> (#[trigger] free[k]).0 < self.next_id && !locations[free[k].0 as int].allocated
        &&& forall|k: int, l: int| 0 <= k < l < free.len() ==> (#[trigger] free[k]).0 != (#[trigger] free[l]).0
    }
}

/// Where a handle's entity lives: none for an index out of range, a freed
/// index, or a stale generation.
pub open spec fn spec_get_location(locations: Seq<EntityLocation>, entity: EntityId) -> Option<(int, int)> {
    if entity.id >= locations.len() {
        None
    } else {
        let loc = locations[entity.id as int];
        if !loc.allocated || loc.generation != entity.generation {
            None
        } else {
            Some((loc.table_index as int, loc.array_index as int))
        }
    }
}

/// Looks up where a handle's entity lives.
pub fn get_location(locations: &EntityLocations, entity: EntityId) -> (r: Option<(usize, usize)>)
    ensures
        match spec_get_location(locations.locations@, entity) {
            Some((t, a)) => r == Some((t as usize, a as usize)),
            None => r is None,
        },
{
    let id = entity.id as usize;
    if id >= locations.locations.len() {
        return None;
    }
    let location = locations.locations[id];
    if !location.allocated || location.generation != entity.generation {
        return None;
    }
    Some((location.table_index as usize, location.array_index as usize))
}

/// Whether a handle names a live entity.
pub open spec fn is_live(ctx: Context, entity: EntityId) -> bool {
    spec_get_location(ctx.entity_locations.locations@, entity) is Some
}

/// The component mask of a live entity.
pub open spec fn spec_component_mask(ctx: Context, entity: EntityId) -> Option<u32> {
    match spec_get_location(ctx.entity_locations.locations@, entity) {
        Some((t, _)) => Some(ctx.tables@[t].mask),
        None => None,
    }
}

/// Reads a live entity's component mask.
pub fn component_mask(context: &Context, entity: EntityId) -> (r: Option<u32>)
    requires
        context.well_formed(),
    ensures
        r == spec_component_mask(*context, entity),
{
    match get_location(&context.entity_locations, entity) {
        Some((t, _)) => Some(context.tables[t].mask),
        None => None,
    }
}

/// A live entity's parent, when it has the parent component.
pub open spec fn parent_component(ctx: Context, entity: EntityId) -> Option<EntityId> {
    match spec_get_location(ctx.entity_locations.locations@, entity) {
        Some((t, a)) => if ctx.tables@[t].mask & PARENT != 0 {
            Some(ctx.tables@[t].parent@[a].0)
        } else {
            None
        },
        None => None,
    }
}

/// A live entity's name, when it has the name component.
pub open spec fn name_component(ctx: Context, entity: EntityId) -> Option<Seq<char>> {
    match spec_get_location(ctx.entity_locations.locations@, entity) {
        Some((t, a)) => if ctx.tables@[t].mask & NAME != 0 {
            Some(ctx.tables@[t].name@[a].0@)
        } else {
            None
        },
        None => None,
    }
}

/// Reads a live entity's parent component.
pub fn get_parent(context: &Context, entity: EntityId) -> (r: Option<Parent>)
    requires
        context.well_formed(),
    ensures
        match parent_component(*context, entity) {
            Some(p) => r == Some(Parent(p)),
            None => r is None,
        },
{
    let (t, a) = match get_location(&context.entity_locations, entity) {
        Some(location) => location,
        None => {
            return None;
        },
    };
    let table = &context.tables[t];
    if table.mask & PARENT == 0 {
        return None;
    }
    Some(table.parent[a])
}

/// Reads a live entity's name component.
pub fn get_name(context: &Context, entity: EntityId) -> (r: Option<&Name>)
    requires
        context.well_formed(),
    ensures
        match name_component(*context, entity) {
            Some(n) => r is Some && r->Some_0.0@ == n,
            None => r is None,
        },
{
    let (t, a) = match get_location(&context.entity_locations, entity) {
        Some(location) => location,
        None => {
            return None;
        },
    };
    let table = &context.tables[t];
    if table.mask & NAME == 0 {
        return None;
    }
    Some(&table.name[a])
}

/// The allocated entities of a list of rows.
pub open spec fn allocated_rows(locations: Seq<EntityLocation>, rows: Seq<EntityId>) -> Seq<EntityId> {
    rows.filter(|e: EntityId| e.id < locations.len() && locations[e.id as int].allocated)
}

/// The entities whose tables hold every bit of a mask, table by table in
/// table order, row by row; only allocated entities are listed.
pub open spec fn spec_query_entities(ctx: Context, mask: u32) -> Seq<EntityId>
    decreases ctx.tables@.len(),
{
    query_tables(ctx.entity_locations.locations@, ctx.tables@, mask)
}

/// [`spec_query_entities`] over a list of tables.
pub open spec fn query_tables(locations: Seq<EntityLocation>, tables: Seq<ComponentArrays>, mask: u32) -> Seq<EntityId>
    decreases tables.len(),
{
    if tables.len() == 0 {
        seq![]
    } else {
        let before = query_tables(locations, tables.drop_last(), mask);
        let table = tables.last();
        if has_all(table.mask, mask) {
            before + allocated_rows(locations, table.entity_indices@)
        } else {
            before
        }
    }
}

/// Lists the entities that have every component of a mask.
pub fn query_entities(context: &Context, mask: u32) -> (r: Vec<EntityId>)
    ensures
        r@ == spec_query_entities(*context, mask),
{
    let ghost locations = context.entity_locations.locations@;
    let ghost tables = context.tables@;
    let mut result: Vec<EntityId> = Vec::new();
    let mut t: usize = 0;
    while t < context.tables.len()
        invariant
            t <= tables.len(),
            tables == context.tables@,
            locations == context.entity_locations.locations@,
            result@ == query_tables(locations, tables.take(t as int), mask),
        decreases tables.len() - t,
    {
        assert(tables.take(t + 1).drop_last() =~= tables.take(t as int));
        let table = &context.tables[t];
        if table.mask & mask == mask {
            let ghost rows = table.entity_indices@;
            let ghost start = result@;
            let mut a: usize = 0;
            while a < table.entity_indices.len()
                invariant
                    a <= rows.len(),
                    rows == table.entity_indices@,
                    locations == context.entity_locations.locations@,
                    result@ == start + allocated_rows(locations, rows.take(a as int)),
                decreases rows.len() - a,
            {
                proof {
                    reveal_with_fuel(Seq::<_>::filter, 1);
                    assert(rows.take(a + 1).drop_last() =~= rows.take(a as int));
                }
                let e = table.entity_indices[a];
                let id = e.id as usize;
                if id < context.entity_locations.locations.len() && context.entity_locations.locations[id].allocated {
                    let ghost mid = result@;
                    result.push(e);
                    assert(result@ =~= start + allocated_rows(locations, rows.take(a + 1)));
                } else {
                    assert(start + allocated_rows(locations, rows.take(a + 1)) =~= result@);
                }
                a += 1;
            }
            assert(rows.take(rows.len() as int) =~= rows);
        }
        t += 1;
    }
    assert(tables.take(tables.len() as int) =~= tables);
    result
}


/// The first entity that has every component of a mask.
pub open spec fn spec_query_first_entity(ctx: Context, mask: u32) -> Option<EntityId> {
    let all = spec_query_entities(ctx, mask);
    if all.len() > 0 {
        Some(all[0])
    } else {
        None
    }
}

/// Finds the first entity that has every component of a mask.
pub fn query_first_entity(context: &Context, mask: u32) -> (r: Option<EntityId>)
    ensures
        r == spec_query_first_entity(*context, mask),
{
    let all = query_entities(context, mask);
    if all.len() > 0 {
        Some(all[0])
    } else {
        None
    }
}

/// The `index`-th camera entity, in query order.
pub open spec fn spec_query_nth_camera(ctx: Context, index: int) -> Option<EntityId> {
    let cameras = spec_query_entities(ctx, CAMERA);
    if 0 <= index < cameras.len() {
        Some(cameras[index])
    } else {
        None
    }
}

/// Finds the `index`-th camera entity.
pub fn query_nth_camera(context: &Context, index: usize) -> (r: Option<EntityId>)
    ensures
        r == spec_query_nth_camera(*context, index as int),
{
    let cameras = query_entities(context, CAMERA);
    if index < cameras.len() {
        Some(cameras[index])
    } else {
        None
    }
}

/// The rows of the tables without the parent component, table by table.
pub open spec fn parentless_rows(tables: Seq<ComponentArrays>) -> Seq<EntityId>
    decreases tables.len(),
{
    if tables.len() == 0 {
        seq![]
    } else {
        let before = parentless_rows(tables.drop_last());
        if has_all(tables.last().mask, PARENT) {
            before
        } else {
            before + tables.last().entity_indices@
        }
    }
}

/// A list with each run of equal neighbours kept once.
pub open spec fn dedup(s: Seq<EntityId>) -> Seq<EntityId>
    decreases s.len(),
{
    if s.len() == 0 {
        s
    } else {
        let d = dedup(s.drop_last());
        if d.len() > 0 && d.last() == s.last() {
            d
        } else {
            d.push(s.last())
        }
    }
}

/// The root nodes: the entities of the tables without the parent component,
/// neighbouring repeats removed.
pub open spec fn spec_query_root_nodes(ctx: Context) -> Seq<EntityId> {
    dedup(parentless_rows(ctx.tables@))
}

/// Finds the root nodes: the entities without a parent component.
pub fn query_root_nodes(context: &Context) -> (r: Vec<EntityId>)
    ensures
        r@ == spec_query_root_nodes(*context),
{
    let ghost tables = context.tables@;
    let mut rows: Vec<EntityId> = Vec::new();
    let mut t: usize = 0;
    while t < context.tables.len()
        invariant
            t <= tables.len(),
            tables == context.tables@,
            rows@ == parentless_rows(tables.take(t as int)),
        decreases tables.len() - t,
    {
        assert(tables.take(t + 1).drop_last() =~= tables.take(t as int));
        let table = &context.tables[t];
        if table.mask & PARENT != PARENT {
            let ghost start = rows@;
            let mut a: usize = 0;
            while a < table.entity_indices.len()
                invariant
                    a <= table.entity_indices@.len(),
                    rows@ == start + table.entity_indices@.take(a as int),
                decreases table.entity_indices@.len() - a,
            {
                rows.push(table.entity_indices[a]);
                assert(rows@ =~= start + table.entity_indices@.take(a + 1));
                a += 1;
            }
            assert(table.entity_indices@.take(table.entity_indices@.len() as int) =~= table.entity_indices@);
        }
        t += 1;
    }
    assert(tables.take(tables.len() as int) =~= tables);
    let mut out: Vec<EntityId> = Vec::new();
    let mut k: usize = 0;
    while k < rows.len()
        invariant
            k <= rows@.len(),
            out@ == dedup(rows@.take(k as int)),
        decreases rows@.len() - k,
    {
        assert(rows@.take(k + 1).drop_last() =~= rows@.take(k as int));
        let e = rows[k];
        if out.len() == 0 || out[out.len() - 1] != e {
            out.push(e);
        }
        k += 1;
    }
    assert(rows@.take(rows@.len() as int) =~= rows@);
    out
}

/// The predicate "this entity's parent is the given one".
pub open spec fn child_of(ctx: Context, target: EntityId) -> spec_fn(EntityId) -> bool {
    |c: EntityId| parent_component(ctx, c) == Some(target)
}

/// The children of an entity: the entities with the parent component whose
/// parent it is, in query order.
pub open spec fn children_of(ctx: Context, target: EntityId) -> Seq<EntityId> {
    spec_query_entities(ctx, PARENT).filter(child_of(ctx, target))
}

/// Finds the children of an entity.
pub fn query_children(context: &Context, target_entity: EntityId) -> (r: Vec<EntityId>)
    requires
        context.well_formed(),
    ensures
        r@ == children_of(*context, target_entity),
{
    let ghost p = child_of(*context, target_entity);
    let with_parent = query_entities(context, PARENT);
    let mut children: Vec<EntityId> = Vec::new();
    let mut k: usize = 0;
    while k < with_parent.len()
        invariant
            k <= with_parent@.len(),
            context.well_formed(),
            p == child_of(*context, target_entity),
            children@ == with_parent@.take(k as int).filter(p),
        decreases with_parent@.len() - k,
    {
        proof {
            reveal_with_fuel(Seq::<_>::filter, 1);
            assert(with_parent@.take(k + 1).drop_last() =~= with_parent@.take(k as int));
        }
        let entity = with_parent[k];
        match get_parent(context, entity) {
            Some(Parent(parent_entity)) => {
                if parent_entity == target_entity {
                    children.push(entity);
                }
            },
            None => {},
        }
        k += 1;
    }
    assert(with_parent@.take(with_parent@.len() as int) =~= with_parent@);
    children
}


/// Whether `rank` puts every entity with a parent below its parent: parent
/// links never lead back, so every walk down the hierarchy ends.
pub open spec fn ranks_parents(ctx: Context, rank: spec_fn(EntityId) -> nat) -> bool {
    forall|c: EntityId, p: EntityId| #[trigger] parent_component(ctx, c) == Some(p) ==> rank(c) < #[trigger] rank(p)
}

/// Whether the parent links have no cycle.
pub open spec fn acyclic(ctx: Context) -> bool {
    exists|rank: spec_fn(EntityId) -> nat| ranks_parents(ctx, rank)
}

/// Whether every entity of a list ranks below a bound.
pub open spec fn all_below(rank: spec_fn(EntityId) -> nat, s: Seq<EntityId>, bound: nat) -> bool {
    forall|i: int| 0 <= i < s.len() ==> #[trigger] rank(s[i]) < bound
}

/// An entity followed by its descendants, depth first, each entity's children
/// taken last first.
pub open spec fn subtree(ctx: Context, rank: spec_fn(EntityId) -> nat, e: EntityId) -> Seq<EntityId>
    decreases rank(e) + 1, 0nat,
    when ranks_parents(ctx, rank)
{
    seq![e] + forest(ctx, rank, children_of(ctx, e), rank(e))
}

/// The subtrees of a stack of entities, the top (last) one first.
pub open spec fn forest(ctx: Context, rank: spec_fn(EntityId) -> nat, stack: Seq<EntityId>, bound: nat) -> Seq<EntityId>
    decreases bound, stack.len() + 1,
    when ranks_parents(ctx, rank) && all_below(rank, stack, bound)
{
    if stack.len() == 0 {
        seq![]
    } else {
        subtree(ctx, rank, stack.last()) + forest(ctx, rank, stack.drop_last(), bound)
    }
}

/// Children rank below their parent.
proof fn lemma_children_below(ctx: Context, rank: spec_fn(EntityId) -> nat, e: EntityId)
    requires
        ranks_parents(ctx, rank),
    ensures
        all_below(rank, children_of(ctx, e), rank(e)),
{
    let all = spec_query_entities(ctx, PARENT);
    assert forall|i: int| 0 <= i < children_of(ctx, e).len() implies #[trigger] rank(children_of(ctx, e)[i]) < rank(e) by {
        all.lemma_filter_pred(child_of(ctx, e), i);
        let c = children_of(ctx, e)[i];
        assert(parent_component(ctx, c) == Some(e));
    }
}

/// A forest does not depend on the bound it was taken under.
proof fn lemma_forest_bound(ctx: Context, rank: spec_fn(EntityId) -> nat, stack: Seq<EntityId>, b1: nat, b2: nat)
    requires
        ranks_parents(ctx, rank),
        all_below(rank, stack, b1),
        all_below(rank, stack, b2),
    ensures
        forest(ctx, rank, stack, b1) == forest(ctx, rank, stack, b2),
    decreases stack.len(),
{
    if stack.len() > 0 {
        lemma_forest_bound(ctx, rank, stack.drop_last(), b1, b2);
    }
}

/// The forest of two stacks on top of each other: the upper stack's first.
proof fn lemma_forest_concat(ctx: Context, rank: spec_fn(EntityId) -> nat, a: Seq<EntityId>, b: Seq<EntityId>, bound: nat)
    requires
        ranks_parents(ctx, rank),
        all_below(rank, a, bound),
        all_below(rank, b, bound),
    ensures
        all_below(rank, a + b, bound),
        forest(ctx, rank, a + b, bound) == forest(ctx, rank, b, bound) + forest(ctx, rank, a, bound),
    decreases b.len(),
{
    assert(all_below(rank, a + b, bound)) by {
        assert forall|i: int| 0 <= i < (a + b).len() implies #[trigger] rank((a + b)[i]) < bound by {
            if i < a.len() {
                assert((a + b)[i] == a[i]);
            } else {
                assert((a + b)[i] == b[i - a.len()]);
            }
        }
    }
    if b.len() == 0 {
        assert(a + b =~= a);
    } else {
        assert((a + b).drop_last() =~= a + b.drop_last());
        assert((a + b).last() == b.last());
        lemma_forest_concat(ctx, rank, a, b.drop_last(), bound);
    }
}

/// A subtree is never empty.
proof fn lemma_subtree_nonempty(ctx: Context, rank: spec_fn(EntityId) -> nat, e: EntityId)
    requires
        ranks_parents(ctx, rank),
    ensures
        subtree(ctx, rank, e).len() >= 1,
        subtree(ctx, rank, e)[0] == e,
{
    lemma_children_below(ctx, rank, e);
}

/// Lists an entity and all its descendants, depth first (each entity before
/// its children, the last child's subtree first).
pub fn query_descendents(context: &Context, target_entity: EntityId) -> (r: Vec<EntityId>)
    requires
        context.well_formed(),
        acyclic(*context),
    ensures
        forall|rank: spec_fn(EntityId) -> nat| ranks_parents(*context, rank) ==> r@ == subtree(*context, rank, target_entity),
{
    let ghost rank = choose|rank: spec_fn(EntityId) -> nat| ranks_parents(*context, rank);
    let ghost bound: nat = rank(target_entity) + 1;
    let ghost whole = subtree(*context, rank, target_entity);
    let mut descendents: Vec<EntityId> = Vec::new();
    let mut stack: Vec<EntityId> = Vec::new();
    stack.push(target_entity);
    proof {
        assert(all_below(rank, stack@, bound));
        assert(stack@.drop_last() =~= Seq::<EntityId>::empty());
        assert(all_below(rank, stack@.drop_last(), bound));
        assert(forest(*context, rank, stack@.drop_last(), bound) =~= Seq::<EntityId>::empty());
        assert(stack@.last() == target_entity);
        assert(forest(*context, rank, stack@, bound) =~= whole);
    }
    while stack.len() > 0
        invariant
            context.well_formed(),
            ranks_parents(*context, rank),
            all_below(rank, stack@, bound),
            descendents@ + forest(*context, rank, stack@, bound) == whole,
        decreases whole.len() - descendents@.len(),
    {
        let ghost before = stack@;
        let entity = stack.pop().unwrap();
        assert(stack@ =~= before.drop_last());
        proof {
            lemma_children_below(*context, rank, entity);
            lemma_subtree_nonempty(*context, rank, entity);
        }
        let ghost rest = stack@;
        descendents.push(entity);
        let children = query_children(context, entity);
        let mut k: usize = 0;
        while k < children.len()
            invariant
                k <= children@.len(),
                ranks_parents(*context, rank),
                all_below(rank, children@, rank(entity)),
                (rank(entity) as int) < bound,
                all_below(rank, rest, bound),
                stack@ == rest + children@.take(k as int),
            decreases children@.len() - k,
        {
            stack.push(children[k]);
            assert(stack@ =~= rest + children@.take(k + 1));
            k += 1;
        }
        proof {
            assert(children@.take(children@.len() as int) =~= children@);
            assert(all_below(rank, children@, bound));
            lemma_forest_concat(*context, rank, rest, children@, bound);
            lemma_forest_bound(*context, rank, children@, bound, rank(entity));
            assert(forest(*context, rank, before, bound) == subtree(*context, rank, entity) + forest(
                *context,
                rank,
                rest,
                bound,
            ));
            assert(descendents@ + forest(*context, rank, stack@, bound) =~= whole);
        }
    }
    proof {
        assert(descendents@ =~= whole);
        assert forall|other: spec_fn(EntityId) -> nat| ranks_parents(*context, other) implies descendents@
            == subtree(*context, other, target_entity) by {
            lemma_subtree_rank(*context, rank, other, target_entity);
        }
    }
    descendents
}

/// A subtree does not depend on which ranking proves the walk ends.
proof fn lemma_subtree_rank(ctx: Context, r1: spec_fn(EntityId) -> nat, r2: spec_fn(EntityId) -> nat, e: EntityId)
    requires
        ranks_parents(ctx, r1),
        ranks_parents(ctx, r2),
    ensures
        subtree(ctx, r1, e) == subtree(ctx, r2, e),
    decreases r1(e),
{
    lemma_children_below(ctx, r1, e);
    lemma_children_below(ctx, r2, e);
    lemma_forest_rank(ctx, r1, r2, children_of(ctx, e), r1(e), r2(e));
}

/// A forest does not depend on which ranking proves the walk ends.
proof fn lemma_forest_rank(
    ctx: Context,
    r1: spec_fn(EntityId) -> nat,
    r2: spec_fn(EntityId) -> nat,
    stack: Seq<EntityId>,
    b1: nat,
    b2: nat,
)
    requires
        ranks_parents(ctx, r1),
        ranks_parents(ctx, r2),
        all_below(r1, stack, b1),
        all_below(r2, stack, b2),
    ensures
        forest(ctx, r1, stack, b1) == forest(ctx, r2, stack, b2),
    decreases b1, stack.len(),
{
    if stack.len() > 0 {
        lemma_subtree_rank(ctx, r1, r2, stack.last());
        lemma_forest_rank(ctx, r1, r2, stack.drop_last(), b1, b2);
    }
}


impl Context {
    /// An empty context.
    pub fn new() -> (r: Context)
        ensures
            r.well_formed(),
            r.tables@.len() == 0,
            r.entity_locations.locations@.len() == 0,
    {
        Context {
            entity_locations: EntityLocations { locations: Vec::new() },
            tables: Vec::new(),
            allocator: EntityAllocator { next_id: 0, free_ids: Vec::new() },
        }
    }
}

/// The location of an index nobody uses yet.
pub open spec fn unused_location() -> EntityLocation {
    EntityLocation { generation: 0, table_index: 0, array_index: 0, allocated: false }
}

/// Whether a context's stored components agree with another's for every
/// entity the first has live: the same place-independent view.
pub open spec fn keeps_entities(old_ctx: Context, new_ctx: Context) -> bool {
    forall|e: EntityId|
        #[trigger] is_live(old_ctx, e) ==> is_live(new_ctx, e) && spec_component_mask(new_ctx, e)
            == spec_component_mask(old_ctx, e) && parent_component(new_ctx, e) == parent_component(old_ctx, e)
            && name_component(new_ctx, e) == name_component(old_ctx, e)
}

/// The location table of a context.
pub open spec fn locations_of(ctx: Context) -> Seq<EntityLocation> {
    ctx.entity_locations.locations@
}

/// Hands out an entity handle: a freed index with its next generation, or a
/// fresh index. The handle is not live until it is placed in a table.
fn create_entity(context: &mut Context) -> (r: EntityId)
    requires
        old(context).well_formed(),
        old(context).allocator.free_ids@.len() > 0 || old(context).allocator.next_id < u32::MAX,
    ensures
        r.id < locations_of(*final(context)).len(),
        !locations_of(*final(context))[r.id as int].allocated,
        locations_of(*final(context))[r.id as int].generation == r.generation,
        locations_of(*old(context)).len() <= locations_of(*final(context)).len(),
        forall|id: int|
            0 <= id < locations_of(*old(context)).len() && id != r.id ==> #[trigger] locations_of(*final(context))[id]
                == locations_of(*old(context))[id],
        forall|id: int|
            locations_of(*old(context)).len() <= id < locations_of(*final(context)).len()
                ==> #[trigger] locations_of(*final(context))[id] == unused_location(),
        r.id < final(context).allocator.next_id,
        (r.id as int) < locations_of(*old(context)).len() ==> !locations_of(*old(context))[r.id as int].allocated,
        final(context).allocator.well_formed(locations_of(*final(context))),
        forall|k: int|
            0 <= k < final(context).allocator.free_ids@.len() ==> (#[trigger] final(context).allocator.free_ids@[k]).0
                != r.id,
        old(context).allocator.free_ids@.len() == 0 ==> final(context).allocator.next_id
            == old(context).allocator.next_id + 1 && final(context).allocator.free_ids@.len() == 0,
        old(context).allocator.free_ids@.len() > 0 ==> final(context).allocator.next_id
            == old(context).allocator.next_id && final(context).allocator.free_ids@.len() + 1
            == old(context).allocator.free_ids@.len(),
        final(context).tables@ == old(context).tables@,
{
    let ghost locations0 = context.entity_locations.locations@;
    match context.allocator.free_ids.pop() {
        Some((id, next_gen)) => {
            let ghost free0 = old(context).allocator.free_ids@;
            assert(free0.last() == (id, next_gen));
            assert(free0[free0.len() - 1] == (id, next_gen));
            let id_usize = id as usize;
            let mut location = context.entity_locations.locations[id_usize];
            location.generation = next_gen;
            context.entity_locations.locations.set(id_usize, location);
            let r = EntityId { id, generation: next_gen };
            proof {
                let free = context.allocator.free_ids@;
                assert forall|k: int| 0 <= k < free.len() implies (#[trigger] free[k]).0 != id by {
                    assert(free[k] == free0[k]);
                    assert(free0[k].0 != free0[free0.len() - 1].0);
                }
                assert forall|k: int| 0 <= k < free.len() implies (#[trigger] free[k]).0
                    < context.allocator.next_id && !context.entity_locations.locations@[free[k].0 as int].allocated by {
                    assert(free[k] == free0[k]);
                }
            }
            r
        },
        None => {
            let id = context.allocator.next_id;
            context.allocator.next_id = id + 1;
            let id_usize = id as usize;
            if id_usize >= context.entity_locations.locations.len() {
                let len = context.entity_locations.locations.len();
                let doubled = if len <= 0x7fff_ffff { len * 2 } else { usize::MAX };
                let new_len = if doubled > 64 { doubled } else { 64 };
                context.entity_locations.locations.resize(new_len, EntityLocation {
                    generation: 0,
                    table_index: 0,
                    array_index: 0,
                    allocated: false,
                });
                proof {
                    assert forall|i: int| len <= i < new_len implies #[trigger] context.entity_locations.locations@[i]
                        == unused_location() by {
                        assert(cloned::<EntityLocation>(unused_location(), context.entity_locations.locations@[i]));
                    }
                    assert forall|i: int| 0 <= i < len implies #[trigger] context.entity_locations.locations@[i]
                        == locations0[i] by {
                        assert(context.entity_locations.locations@.subrange(0, len as int)[i] == locations0[i]);
                    }
                }
            }
            EntityId { id, generation: 0 }
        },
    }
}


/// The rows of each table.
pub open spec fn table_rows(tables: Seq<ComponentArrays>) -> Seq<Seq<EntityId>> {
    Seq::new(tables.len(), |t: int| tables[t].entity_indices@)
}

/// The test "this table holds exactly this mask".
pub open spec fn holds_mask(mask: u32) -> spec_fn(ComponentArrays) -> bool {
    |table: ComponentArrays| table.mask == mask
}

/// The first table of a mask, if there is one.
pub open spec fn table_of(tables: Seq<ComponentArrays>, mask: u32) -> Option<int> {
    first_where(tables, holds_mask(mask))
}

/// The rows after entities join the table of a mask, at its end; a new table
/// is added last when none holds the mask.
pub open spec fn rows_with_appended(tables: Seq<ComponentArrays>, mask: u32, added: Seq<EntityId>) -> Seq<Seq<EntityId>> {
    match table_of(tables, mask) {
        Some(t) => table_rows(tables).update(t, tables[t].entity_indices@ + added),
        None => table_rows(tables).push(added),
    }
}

/// Finds the table of a component mask, creating an empty one when there is
/// none.
fn get_or_create_table(context: &mut Context, mask: u32) -> (r: usize)
    requires
        old(context).well_formed(),
        old(context).tables@.len() < 0x10000,
    ensures
        final(context).well_formed(),
        r < final(context).tables@.len(),
        final(context).tables@[r as int].mask == mask,
        final(context).entity_locations == old(context).entity_locations,
        final(context).allocator == old(context).allocator,
        final(context).tables@.len() <= old(context).tables@.len() + 1,
        forall|t: int| 0 <= t < old(context).tables@.len() ==> #[trigger] final(context).tables@[t] == old(
            context,
        ).tables@[t],
        r >= old(context).tables@.len() ==> final(context).tables@[r as int].entity_indices@.len() == 0,
        match table_of(old(context).tables@, mask) {
            Some(t) => r == t && final(context).tables@ == old(context).tables@,
            None => r == old(context).tables@.len() && final(context).tables@.len() == old(context).tables@.len() + 1,
        },
{
    let mut t: usize = 0;
    while t < context.tables.len()
        invariant
            t <= context.tables@.len(),
            *context == *old(context),
            context.well_formed(),
            forall|u: int| 0 <= u < t ==> !holds_mask(mask)(#[trigger] context.tables@[u]),
        decreases context.tables@.len() - t,
    {
        if context.tables[t].mask == mask {
            proof {
                lemma_first_where_is(context.tables@, holds_mask(mask), t as int);
            }
            return t;
        }
        t += 1;
    }
    proof {
        lemma_first_where_none(context.tables@, holds_mask(mask));
    }
    let index = context.tables.len();
    context.tables.push(ComponentArrays { name: Vec::new(), parent: Vec::new(), entity_indices: Vec::new(), mask });
    proof {
        let ctx = *context;
        let old_tables = old(context).tables@;
        assert forall|t: int, a: int|
            0 <= t < ctx.tables@.len() && 0 <= a < ctx.tables@[t].entity_indices@.len() implies located(
            ctx.entity_locations.locations@,
            #[trigger] ctx.tables@[t].entity_indices@[a],
            t,
            a,
        ) by {
            assert(t < old_tables.len());
            assert(ctx.tables@[t] == old_tables[t]);
        }
        assert forall|id: int|
            0 <= id < ctx.entity_locations.locations@.len() && (#[trigger] ctx.entity_locations.locations@[id]).allocated implies {
            let loc = ctx.entity_locations.locations@[id];
            &&& (loc.table_index as int) < ctx.tables@.len()
            &&& (loc.array_index as int) < ctx.tables@[loc.table_index as int].entity_indices@.len()
            &&& ctx.tables@[loc.table_index as int].entity_indices@[loc.array_index as int] == EntityId {
                id: id as u32,
                generation: loc.generation,
            }
        } by {
            let loc = ctx.entity_locations.locations@[id];
            assert(ctx.tables@[loc.table_index as int] == old_tables[loc.table_index as int]);
        }
    }
    index
}

/// Records where an entity now lives.
fn insert_location(locations: &mut EntityLocations, entity: EntityId, location: (usize, usize))
    requires
        (entity.id as int) < old(locations).locations@.len(),
        location.0 < 0x10000,
        location.1 < 0x10000,
    ensures
        final(locations).locations@ == old(locations).locations@.update(
            entity.id as int,
            EntityLocation {
                generation: entity.generation,
                table_index: location.0 as u16,
                array_index: location.1 as u16,
                allocated: true,
            },
        ),
{
    let id = entity.id as usize;
    locations.locations.set(
        id,
        EntityLocation {
            generation: entity.generation,
            table_index: location.0 as u16,
            array_index: location.1 as u16,
            allocated: true,
        },
    );
}

/// The name a spawned entity starts with.
pub open spec fn default_name() -> Seq<char> {
    Seq::empty()
}

/// The parent a spawned entity starts with.
pub open spec fn default_parent() -> EntityId {
    EntityId { id: 0, generation: 0 }
}

/// Whether an entity was spawned with a mask: live, with that mask, and with
/// the default values of the stored components the mask holds.
pub open spec fn spawned_with(ctx: Context, e: EntityId, mask: u32) -> bool {
    &&& is_live(ctx, e)
    &&& spec_component_mask(ctx, e) == Some(mask)
    &&& name_component(ctx, e) == (if mask & NAME != 0 { Some(default_name()) } else { None::<Seq<char>> })
    &&& parent_component(ctx, e) == (if mask & PARENT != 0 { Some(default_parent()) } else { None::<EntityId> })
}

/// How many more entity indices the allocator can hand out: the freed ones
/// and the fresh ones left.
pub open spec fn spare_ids(ctx: Context) -> int {
    ctx.allocator.free_ids@.len() + (u32::MAX - ctx.allocator.next_id)
}

/// Whether a context grew by at most one entity: at most one more table,
/// every table at most one row longer, at most one index used.
pub open spec fn grew_by_one(before: Context, after: Context) -> bool {
    &&& after.tables@.len() <= before.tables@.len() + 1
    &&& forall|t: int|
        0 <= t < after.tables@.len() ==> (#[trigger] after.tables@[t]).entity_indices@.len() <= (if t
            < before.tables@.len() {
            before.tables@[t].entity_indices@.len() as int
        } else {
            0
        }) + 1
    &&& spare_ids(after) >= spare_ids(before) - 1
}

/// Whether `n` more single spawns fit, each possibly in a new table.
pub open spec fn room_for(ctx: Context, n: nat) -> bool {
    &&& has_room(ctx, n)
    &&& ctx.tables@.len() + n < 0x10000
}

/// Room for one more spawn than a context that grew by one uses.
pub proof fn lemma_room_step(before: Context, after: Context, n: nat)
    requires
        room_for(before, n + 1),
        grew_by_one(before, after),
    ensures
        room_for(after, n),
        has_room(before, 1),
{
    assert forall|t: int| 0 <= t < after.tables@.len() implies (#[trigger] after.tables@[t]).entity_indices@.len()
        + n < 0x10000 by {
        if t < before.tables@.len() {
            assert(before.tables@[t].entity_indices@.len() + (n + 1) < 0x10000);
        }
    }
    assert forall|t: int| 0 <= t < before.tables@.len() implies (#[trigger] before.tables@[t]).entity_indices@.len()
        + 1 < 0x10000 by {
        assert(before.tables@[t].entity_indices@.len() + (n + 1) < 0x10000);
    }
}

/// Spawning one entity grows a context by one.
pub proof fn lemma_spawn_one_grows(before: Context, after: Context, mask: u32, r: Seq<EntityId>)
    requires
        r.len() == 1,
        table_rows(after.tables@) == rows_with_appended(before.tables@, mask, r),
        spare_ids(after) == spare_ids(before) - 1,
    ensures
        grew_by_one(before, after),
{
    let rows = table_rows(after.tables@);
    crate::seqs::lemma_first_where(before.tables@, holds_mask(mask));
    assert(rows.len() == after.tables@.len());
    match table_of(before.tables@, mask) {
        Some(u) => assert(rows.len() == before.tables@.len()),
        None => assert(rows.len() == before.tables@.len() + 1),
    }
    assert forall|t: int| 0 <= t < after.tables@.len() implies (#[trigger] after.tables@[t]).entity_indices@.len() <= (if t
        < before.tables@.len() {
        before.tables@[t].entity_indices@.len() as int
    } else {
        0
    }) + 1 by {
        assert(rows[t] == after.tables@[t].entity_indices@);
        match table_of(before.tables@, mask) {
            Some(u) => {
                assert(rows == table_rows(before.tables@).update(u, before.tables@[u].entity_indices@ + r));
                if t == u {
                } else {
                    assert(rows[t] == table_rows(before.tables@)[t]);
                }
            },
            None => {
                assert(rows == table_rows(before.tables@).push(r));
                if t < before.tables@.len() {
                    assert(rows[t] == table_rows(before.tables@)[t]);
                }
            },
        }
    }
}

/// Whether a batch of `count` entities fits: the table positions stay within
/// what a location records, and the allocator has enough indices left.
pub open spec fn has_room(ctx: Context, count: nat) -> bool {
    &&& ctx.tables@.len() < 0x10000
    &&& count < 0x10000
    &&& forall|t: int| 0 <= t < ctx.tables@.len() ==> (#[trigger] ctx.tables@[t]).entity_indices@.len() + count < 0x10000
    &&& ctx.allocator.free_ids@.len() + (u32::MAX - ctx.allocator.next_id) >= count
}

/// Spawns a batch of entities with the same component mask; stored
/// components start at their defaults (an empty name, the zero parent).
pub fn spawn_entities(context: &mut Context, mask: u32, count: usize) -> (r: Vec<EntityId>)
    requires
        old(context).well_formed(),
        has_room(*old(context), count as nat),
    ensures
        final(context).well_formed(),
        r@.len() == count,
        forall|k: int| 0 <= k < count ==> spawned_with(*final(context), #[trigger] r@[k], mask),
        forall|k: int| 0 <= k < count ==> !is_live(*old(context), #[trigger] r@[k]),
        forall|k: int, l: int| 0 <= k < l < count ==> r@[k] != r@[l],
        keeps_entities(*old(context), *final(context)),
        table_rows(final(context).tables@) == rows_with_appended(old(context).tables@, mask, r@),
        forall|t: int| 0 <= t < old(context).tables@.len() ==> (#[trigger] final(context).tables@[t]).mask == old(
            context,
        ).tables@[t].mask,
        spare_ids(*final(context)) == spare_ids(*old(context)) - count,
{
    let table_index = get_or_create_table(context, mask);
    let ghost start = *context;
    let mut entities: Vec<EntityId> = Vec::new();
    let mut i: usize = 0;
    while i < count
        invariant
            i <= count,
            context.well_formed(),
            table_index < context.tables@.len(),
            context.tables@[table_index as int].mask == mask,
            context.tables@.len() == start.tables@.len(),
            context.tables@[table_index as int].entity_indices@.len() + (count - i) < 0x10000,
            context.allocator.free_ids@.len() + (u32::MAX - context.allocator.next_id) >= count - i,
            entities@.len() == i,
            forall|k: int| 0 <= k < i ==> spawned_with(*context, #[trigger] entities@[k], mask),
            forall|k: int| 0 <= k < i ==> !is_live(*old(context), #[trigger] entities@[k]),
            forall|k: int, l: int| 0 <= k < l < i ==> entities@[k] != entities@[l],
            keeps_entities(*old(context), *context),
            table_rows(context.tables@) == table_rows(start.tables@).update(
                table_index as int,
                start.tables@[table_index as int].entity_indices@ + entities@,
            ),
            forall|t: int| 0 <= t < start.tables@.len() ==> (#[trigger] context.tables@[t]).mask == start.tables@[t].mask,
            spare_ids(*context) == spare_ids(start) - i,
            start.allocator == old(context).allocator,
        decreases count - i,
    {
        let ghost before = *context;
        let entity = create_entity(context);
        let ghost created = *context;
        let mut table = ComponentArrays { name: Vec::new(), parent: Vec::new(), entity_indices: Vec::new(), mask: 0 };
        context.tables.set_and_swap(table_index, &mut table);
        if table.mask & NAME != 0 {
            table.name.push(Name(String::new()));
        }
        if table.mask & PARENT != 0 {
            table.parent.push(Parent(EntityId { id: 0, generation: 0 }));
        }
        table.entity_indices.push(entity);
        let row = table.entity_indices.len() - 1;
        context.tables.set_and_swap(table_index, &mut table);
        insert_location(&mut context.entity_locations, entity, (table_index, row));
        proof {
            lemma_place_entity(before, created, *context, entity, table_index as int, row as int);
            assert(context.allocator == created.allocator);
            assert(table_rows(context.tables@) =~= table_rows(before.tables@).update(
                table_index as int,
                before.tables@[table_index as int].entity_indices@.push(entity),
            ));
            assert forall|t: int| 0 <= t < start.tables@.len() implies (#[trigger] context.tables@[t]).mask
                == start.tables@[t].mask by {
                if t != table_index {
                    assert(context.tables@[t] == before.tables@[t]);
                }
            }
        }
        let ghost listed = entities@;
        entities.push(entity);
        proof {
            let base = start.tables@[table_index as int].entity_indices@;
            assert(table_rows(before.tables@)[table_index as int] == base + listed);
            assert(base + entities@ =~= (base + listed).push(entity));
            assert(table_rows(context.tables@) =~= table_rows(start.tables@).update(table_index as int, base + entities@));
        }
        i += 1;
    }
    proof {
        let old_tables = old(context).tables@;
        match table_of(old_tables, mask) {
            Some(t) => {
                assert(table_rows(context.tables@) =~= rows_with_appended(old_tables, mask, entities@));
            },
            None => {
                assert(start.tables@[table_index as int].entity_indices@ =~= Seq::<EntityId>::empty());
                assert(start.tables@[table_index as int].entity_indices@ + entities@ =~= entities@);
                assert(table_rows(context.tables@) =~= rows_with_appended(old_tables, mask, entities@));
            },
        }
        assert forall|t: int| 0 <= t < old_tables.len() implies (#[trigger] context.tables@[t]).mask == old_tables[t].mask by {
            assert(start.tables@[t] == old_tables[t]);
        }
    }
    entities
}


/// Placing a fresh entity in a table's new last row keeps the store well
/// formed, makes the entity live with the table's mask and default stored
/// components, and leaves every live entity as it was.
proof fn lemma_place_entity(before: Context, created: Context, after: Context, e: EntityId, t: int, row: int)
    requires
        before.well_formed(),
        created.tables@ == before.tables@,
        locations_of(before).len() <= locations_of(created).len(),
        forall|id: int|
            0 <= id < locations_of(before).len() && id != e.id ==> #[trigger] locations_of(created)[id]
                == locations_of(before)[id],
        forall|id: int|
            locations_of(before).len() <= id < locations_of(created).len() ==> #[trigger] locations_of(created)[id]
                == unused_location(),
        e.id < locations_of(created).len(),
        !locations_of(created)[e.id as int].allocated,
        (e.id as int) < locations_of(before).len() ==> !locations_of(before)[e.id as int].allocated,
        e.id < created.allocator.next_id,
        created.allocator.well_formed(locations_of(created)),
        forall|k: int| 0 <= k < created.allocator.free_ids@.len() ==> (#[trigger] created.allocator.free_ids@[k]).0 != e.id,
        0 <= t < before.tables@.len(),
        before.tables@.len() <= 0x10000,
        row == before.tables@[t].entity_indices@.len(),
        row < 0x10000,
        after.allocator == created.allocator,
        after.tables@.len() == before.tables@.len(),
        forall|u: int| 0 <= u < before.tables@.len() && u != t ==> #[trigger] after.tables@[u] == before.tables@[u],
        after.tables@[t].mask == before.tables@[t].mask,
        after.tables@[t].entity_indices@ == before.tables@[t].entity_indices@.push(e),
        after.tables@[t].name@.len() == before.tables@[t].name@.len() + (if before.tables@[t].mask & NAME != 0 {
            1int
        } else {
            0int
        }),
        forall|a: int| 0 <= a < before.tables@[t].name@.len() ==> #[trigger] after.tables@[t].name@[a] == before.tables@[t].name@[a],
        before.tables@[t].mask & NAME != 0 ==> after.tables@[t].name@[row].0@ == default_name(),
        after.tables@[t].parent@.len() == before.tables@[t].parent@.len() + (if before.tables@[t].mask & PARENT != 0 {
            1int
        } else {
            0int
        }),
        forall|a: int| 0 <= a < before.tables@[t].parent@.len() ==> #[trigger] after.tables@[t].parent@[a] == before.tables@[t].parent@[a],
        before.tables@[t].mask & PARENT != 0 ==> after.tables@[t].parent@[row] == Parent(default_parent()),
        locations_of(after) == locations_of(created).update(
            e.id as int,
            EntityLocation {
                generation: e.generation,
                table_index: t as u16,
                array_index: row as u16,
                allocated: true,
            },
        ),
    ensures
        after.well_formed(),
        spawned_with(after, e, before.tables@[t].mask),
        !is_live(before, e),
        keeps_entities(before, after),
{
    let lb = locations_of(before);
    let lc = locations_of(created);
    let la = locations_of(after);
    let tb = before.tables@;
    let ta = after.tables@;
    // No row of any table holds the fresh index.
    assert forall|u: int, a: int| 0 <= u < tb.len() && 0 <= a < tb[u].entity_indices@.len() implies (#[trigger] tb[u].entity_indices@[a]).id
        != e.id by {
        let x = tb[u].entity_indices@[a];
        assert(located(lb, x, u, a));
    }
    assert(!is_live(before, e)) by {
        if e.id < lb.len() && lb[e.id as int].allocated {
            let loc = lb[e.id as int];
            assert(tb[loc.table_index as int].entity_indices@[loc.array_index as int].id == e.id);
        }
    }
    assert forall|u: int, a: int|
        0 <= u < ta.len() && 0 <= a < ta[u].entity_indices@.len() implies located(la, #[trigger] ta[u].entity_indices@[a], u, a) by {
        if u == t && a == row {
        } else {
            assert(ta[u].entity_indices@[a] == tb[u].entity_indices@[a]);
            let x = tb[u].entity_indices@[a];
            assert(located(lb, x, u, a));
            assert(x.id != e.id);
            assert(la[x.id as int] == lb[x.id as int]);
        }
    }
    assert forall|id: int| 0 <= id < la.len() && (#[trigger] la[id]).allocated implies {
        let loc = la[id];
        &&& (loc.table_index as int) < ta.len()
        &&& (loc.array_index as int) < ta[loc.table_index as int].entity_indices@.len()
        &&& ta[loc.table_index as int].entity_indices@[loc.array_index as int] == EntityId {
            id: id as u32,
            generation: loc.generation,
        }
    } by {
        if id != e.id {
            assert(id < lb.len());
            assert(la[id] == lb[id]);
            let loc = lb[id];
            let u = loc.table_index as int;
            if u == t {
                assert(ta[u].entity_indices@[loc.array_index as int] == tb[u].entity_indices@[loc.array_index as int]);
            } else {
                assert(ta[u] == tb[u]);
            }
        }
    }
    assert forall|u: int| 0 <= u < ta.len() implies {
        let table = #[trigger] ta[u];
        &&& table.entity_indices@.len() <= 0x10000
        &&& table.name@.len() == (if table.mask & NAME != 0 { table.entity_indices@.len() } else { 0 })
        &&& table.parent@.len() == (if table.mask & PARENT != 0 { table.entity_indices@.len() } else { 0 })
    } by {
        if u != t {
            assert(ta[u] == tb[u]);
        }
    }
    let al = after.allocator;
    assert(al.well_formed(la)) by {
        assert forall|id: int| al.next_id <= id < la.len() implies #[trigger] la[id] == EntityLocation {
            generation: 0,
            table_index: 0,
            array_index: 0,
            allocated: false,
        } by {
            assert(la[id] == lc[id]);
        }
        assert forall|k: int| 0 <= k < al.free_ids@.len() implies (#[trigger] al.free_ids@[k]).0 < al.next_id
            && !la[al.free_ids@[k].0 as int].allocated by {
            assert(la[al.free_ids@[k].0 as int] == lc[al.free_ids@[k].0 as int]);
        }
    }
    assert(after.well_formed());
    assert(spawned_with(after, e, tb[t].mask));
    assert forall|x: EntityId| #[trigger] is_live(before, x) implies is_live(after, x) && spec_component_mask(after, x)
        == spec_component_mask(before, x) && parent_component(after, x) == parent_component(before, x)
        && name_component(after, x) == name_component(before, x) by {
        let loc = lb[x.id as int];
        assert(tb[loc.table_index as int].entity_indices@[loc.array_index as int].id == x.id);
        assert(x.id != e.id);
        assert(la[x.id as int] == lb[x.id as int]);
        let u = loc.table_index as int;
        let a = loc.array_index as int;
        if u == t {
            assert(a < row);
            if tb[t].mask & NAME != 0 {
                assert(ta[t].name@[a] == tb[t].name@[a]);
            }
            if tb[t].mask & PARENT != 0 {
                assert(ta[t].parent@[a] == tb[t].parent@[a]);
            }
        } else {
            assert(ta[u] == tb[u]);
        }
    }
}


/// Writes a live entity's parent component, when it has one; says whether it
/// did. Every other stored value stays.
pub fn set_parent(context: &mut Context, entity: EntityId, parent: EntityId) -> (r: bool)
    requires
        old(context).well_formed(),
    ensures
        final(context).well_formed(),
        r == (parent_component(*old(context), entity) is Some),
        forall|x: EntityId| #[trigger] is_live(*final(context), x) == is_live(*old(context), x),
        forall|x: EntityId|
            #[trigger] spec_component_mask(*final(context), x) == spec_component_mask(*old(context), x),
        forall|x: EntityId| #[trigger] name_component(*final(context), x) == name_component(*old(context), x),
        forall|x: EntityId|
            #[trigger] parent_component(*final(context), x) == if x == entity && r {
                Some(parent)
            } else {
                parent_component(*old(context), x)
            },
        table_rows(final(context).tables@) == table_rows(old(context).tables@),
        locations_of(*final(context)) == locations_of(*old(context)),
        final(context).allocator == old(context).allocator,
{
    let (t, a) = match get_location(&context.entity_locations, entity) {
        Some(location) => location,
        None => {
            return false;
        },
    };
    if context.tables[t].mask & PARENT == 0 {
        return false;
    }
    let ghost before = *context;
    let mut table = ComponentArrays { name: Vec::new(), parent: Vec::new(), entity_indices: Vec::new(), mask: 0 };
    context.tables.set_and_swap(t, &mut table);
    table.parent.set(a, Parent(parent));
    context.tables.set_and_swap(t, &mut table);
    proof {
        let tb = before.tables@;
        let ta = context.tables@;
        assert forall|u: int| 0 <= u < ta.len() && u != t implies #[trigger] ta[u] == tb[u] by {}
        assert forall|x: EntityId| #[trigger] parent_component(*context, x) == if x == entity {
            Some(parent)
        } else {
            parent_component(before, x)
        } by {
            if let Some((u, b)) = spec_get_location(before.entity_locations.locations@, x) {
                if x != entity && u == t as int && b == a as int {
                    let loc = before.entity_locations.locations@[x.id as int];
                    assert(tb[u].entity_indices@[b].id == x.id);
                    let le = before.entity_locations.locations@[entity.id as int];
                    assert(tb[u].entity_indices@[b].id == entity.id);
                    assert(x.generation == loc.generation);
                    assert(entity.generation == le.generation);
                }
            }
        }
        assert forall|x: EntityId| #[trigger] name_component(*context, x) == name_component(before, x) by {
            if let Some((u, b)) = spec_get_location(before.entity_locations.locations@, x) {
                if u == t as int {
                    assert(ta[u].name@ == tb[u].name@);
                }
            }
        }
    }
    true
}

/// Writes a live entity's name component, when it has one; says whether it
/// did. Every other stored value stays.
pub fn set_name(context: &mut Context, entity: EntityId, name: String) -> (r: bool)
    requires
        old(context).well_formed(),
    ensures
        final(context).well_formed(),
        r == (name_component(*old(context), entity) is Some),
        forall|x: EntityId| #[trigger] is_live(*final(context), x) == is_live(*old(context), x),
        forall|x: EntityId|
            #[trigger] spec_component_mask(*final(context), x) == spec_component_mask(*old(context), x),
        forall|x: EntityId| #[trigger] parent_component(*final(context), x) == parent_component(*old(context), x),
        forall|x: EntityId|
            #[trigger] name_component(*final(context), x) == if x == entity && r {
                Some(name@)
            } else {
                name_component(*old(context), x)
            },
        table_rows(final(context).tables@) == table_rows(old(context).tables@),
        locations_of(*final(context)) == locations_of(*old(context)),
        final(context).allocator == old(context).allocator,
{
    let (t, a) = match get_location(&context.entity_locations, entity) {
        Some(location) => location,
        None => {
            return false;
        },
    };
    if context.tables[t].mask & NAME == 0 {
        return false;
    }
    let ghost before = *context;
    let ghost text = name@;
    let mut table = ComponentArrays { name: Vec::new(), parent: Vec::new(), entity_indices: Vec::new(), mask: 0 };
    context.tables.set_and_swap(t, &mut table);
    table.name.set(a, Name(name));
    context.tables.set_and_swap(t, &mut table);
    proof {
        let tb = before.tables@;
        let ta = context.tables@;
        assert forall|u: int| 0 <= u < ta.len() && u != t implies #[trigger] ta[u] == tb[u] by {}
        assert forall|x: EntityId| #[trigger] name_component(*context, x) == if x == entity {
            Some(text)
        } else {
            name_component(before, x)
        } by {
            if let Some((u, b)) = spec_get_location(before.entity_locations.locations@, x) {
                if x != entity && u == t as int && b == a as int {
                    let loc = before.entity_locations.locations@[x.id as int];
                    assert(tb[u].entity_indices@[b].id == x.id);
                    let le = before.entity_locations.locations@[entity.id as int];
                    assert(tb[u].entity_indices@[b].id == entity.id);
                    assert(x.generation == loc.generation);
                    assert(entity.generation == le.generation);
                }
            }
        }
        assert forall|x: EntityId| #[trigger] parent_component(*context, x) == parent_component(before, x) by {
            if let Some((u, b)) = spec_get_location(before.entity_locations.locations@, x) {
                if u == t as int {
                    assert(ta[u].parent@ == tb[u].parent@);
                }
            }
        }
    }
    true
}


/// A list with one element taken out by moving the last one into its place.
pub open spec fn swap_removed<T>(s: Seq<T>, i: int) -> Seq<T> {
    s.update(i, s.last()).drop_last()
}

/// The name an entity carries into a table with the name component: the one
/// it had, else the default.
pub open spec fn carried_name(had: Option<Seq<char>>) -> Seq<char> {
    match had {
        Some(n) => n,
        None => default_name(),
    }
}

/// The parent an entity carries into a table with the parent component: the
/// one it had, else the default.
pub open spec fn carried_parent(had: Option<EntityId>) -> EntityId {
    match had {
        Some(p) => p,
        None => default_parent(),
    }
}

/// Moving an entity from one table to another keeps the store well formed,
/// gives the entity the new table's mask with its stored components carried
/// over (defaults for the ones it lacked), and leaves every other live entity
/// as it was.
proof fn lemma_move_entity(before: Context, after: Context, e: EntityId, ft: int, fi: int, tt: int)
    requires
        before.well_formed(),
        spec_get_location(locations_of(before), e) == Some((ft, fi)),
        0 <= tt < before.tables@.len(),
        ft != tt,
        before.tables@[tt].entity_indices@.len() + 1 < 0x10000,
        after.allocator == before.allocator,
        after.tables@.len() == before.tables@.len(),
        forall|u: int| 0 <= u < before.tables@.len() && u != ft && u != tt ==> #[trigger] after.tables@[u] == before.tables@[u],
        ({
            let from = before.tables@[ft];
            let to = before.tables@[tt];
            let from2 = after.tables@[ft];
            let to2 = after.tables@[tt];
            let row = to.entity_indices@.len() as int;
            &&& from2.mask == from.mask
            &&& to2.mask == to.mask
            &&& from2.entity_indices@ == swap_removed(from.entity_indices@, fi)
            &&& from2.name@ == (if from.mask & NAME != 0 { swap_removed(from.name@, fi) } else { from.name@ })
            &&& from2.parent@ == (if from.mask & PARENT != 0 { swap_removed(from.parent@, fi) } else { from.parent@ })
            &&& to2.entity_indices@ == to.entity_indices@.push(e)
            &&& to2.name@.len() == to.name@.len() + (if to.mask & NAME != 0 { 1int } else { 0int })
            &&& forall|a: int| 0 <= a < to.name@.len() ==> #[trigger] to2.name@[a] == to.name@[a]
            &&& to.mask & NAME != 0 ==> to2.name@[row].0@ == carried_name(name_component(before, e))
            &&& to2.parent@.len() == to.parent@.len() + (if to.mask & PARENT != 0 { 1int } else { 0int })
            &&& forall|a: int| 0 <= a < to.parent@.len() ==> #[trigger] to2.parent@[a] == to.parent@[a]
            &&& to.mask & PARENT != 0 ==> to2.parent@[row].0 == carried_parent(parent_component(before, e))
            &&& {
                let moved = before.tables@[ft].entity_indices@.last();
                let placed = locations_of(before).update(
                    e.id as int,
                    EntityLocation { generation: e.generation, table_index: tt as u16, array_index: row as u16, allocated: true },
                );
                locations_of(after) == if fi < from.entity_indices@.len() - 1 {
                    placed.update(
                        moved.id as int,
                        EntityLocation { generation: moved.generation, table_index: ft as u16, array_index: fi as u16, allocated: true },
                    )
                } else {
                    placed
                }
            }
        }),
    ensures
        after.well_formed(),
        is_live(after, e),
        spec_component_mask(after, e) == Some(before.tables@[tt].mask),
        name_component(after, e) == if before.tables@[tt].mask & NAME != 0 {
            Some(carried_name(name_component(before, e)))
        } else {
            None
        },
        parent_component(after, e) == if before.tables@[tt].mask & PARENT != 0 {
            Some(carried_parent(parent_component(before, e)))
        } else {
            None
        },
        forall|x: EntityId| x != e ==> #[trigger] is_live(after, x) == is_live(before, x),
        forall|x: EntityId|
            x != e && is_live(before, x) ==> #[trigger] spec_component_mask(after, x) == spec_component_mask(before, x)
                && parent_component(after, x) == parent_component(before, x) && name_component(after, x)
                == name_component(before, x),
{
    let lb = locations_of(before);
    let la = locations_of(after);
    let tb = before.tables@;
    let ta = after.tables@;
    let from = tb[ft];
    let to = tb[tt];
    let last = from.entity_indices@.len() - 1;
    let moved = from.entity_indices@[last];
    let row = to.entity_indices@.len() as int;
    assert(from.entity_indices@[fi] == e);
    assert(located(lb, moved, ft, last));
    let shifted = fi < last;
    // Which ids change location.
    assert(shifted ==> moved.id != e.id);
    assert forall|id: int| 0 <= id < lb.len() && id != e.id && !(shifted && id == moved.id) implies #[trigger] la[id] == lb[id] by {}
    // Rows of every table are located.
    assert forall|u: int, a: int|
        0 <= u < ta.len() && 0 <= a < ta[u].entity_indices@.len() implies located(la, #[trigger] ta[u].entity_indices@[a], u, a) by {
        if u == tt {
            if a < row {
                let y = to.entity_indices@[a];
                assert(ta[u].entity_indices@[a] == y);
                assert(located(lb, y, tt, a));
                assert(y.id != e.id);
                if shifted {
                    assert(y.id != moved.id);
                }
                assert(la[y.id as int] == lb[y.id as int]);
            }
        } else if u == ft {
            if shifted && a == fi {
                assert(ta[u].entity_indices@[a] == moved);
            } else {
                let y = from.entity_indices@[a];
                assert(ta[u].entity_indices@[a] == y);
                assert(located(lb, y, ft, a));
                assert(y.id != e.id);
                if shifted {
                    assert(y.id != moved.id);
                }
                assert(la[y.id as int] == lb[y.id as int]);
            }
        } else {
            let y = tb[u].entity_indices@[a];
            assert(ta[u] == tb[u]);
            assert(located(lb, y, u, a));
            assert(y.id != e.id);
            if shifted {
                assert(y.id != moved.id);
            }
            assert(la[y.id as int] == lb[y.id as int]);
        }
    }
    // Every allocated location names its row.
    assert forall|id: int| 0 <= id < la.len() && (#[trigger] la[id]).allocated implies {
        let loc = la[id];
        &&& (loc.table_index as int) < ta.len()
        &&& (loc.array_index as int) < ta[loc.table_index as int].entity_indices@.len()
        &&& ta[loc.table_index as int].entity_indices@[loc.array_index as int] == EntityId {
            id: id as u32,
            generation: loc.generation,
        }
    } by {
        if id == e.id {
        } else if shifted && id == moved.id {
        } else {
            assert(la[id] == lb[id]);
            let loc = lb[id];
            let u = loc.table_index as int;
            let a = loc.array_index as int;
            assert(tb[u].entity_indices@[a].id == id);
            if u == ft {
                assert(a != fi);
                assert(a != last);
                assert(ta[u].entity_indices@[a] == tb[u].entity_indices@[a]);
            } else if u == tt {
                assert(ta[u].entity_indices@[a] == tb[u].entity_indices@[a]);
            } else {
                assert(ta[u] == tb[u]);
            }
        }
    }
    assert forall|u: int| 0 <= u < ta.len() implies {
        let table = #[trigger] ta[u];
        &&& table.entity_indices@.len() <= 0x10000
        &&& table.name@.len() == (if table.mask & NAME != 0 { table.entity_indices@.len() } else { 0 })
        &&& table.parent@.len() == (if table.mask & PARENT != 0 { table.entity_indices@.len() } else { 0 })
    } by {
        if u != ft && u != tt {
            assert(ta[u] == tb[u]);
        }
    }
    let al = after.allocator;
    assert(al.well_formed(la)) by {
        assert forall|id: int| al.next_id <= id < la.len() implies #[trigger] la[id] == EntityLocation {
            generation: 0,
            table_index: 0,
            array_index: 0,
            allocated: false,
        } by {
            assert(id != e.id);
            assert(!(shifted && id == moved.id));
            assert(la[id] == lb[id]);
        }
        assert forall|k: int| 0 <= k < al.free_ids@.len() implies (#[trigger] al.free_ids@[k]).0 < al.next_id
            && !la[al.free_ids@[k].0 as int].allocated by {
            let id = al.free_ids@[k].0 as int;
            assert(id != e.id);
            assert(!(shifted && id == moved.id));
            assert(la[id] == lb[id]);
        }
    }
    assert(after.well_formed());
    // The moved entity's values.
    if to.mask & NAME != 0 {
        assert(ta[tt].name@[row].0@ == carried_name(name_component(before, e)));
    }
    // Every other live entity keeps its values.
    assert forall|x: EntityId| x != e implies #[trigger] is_live(after, x) == is_live(before, x) by {
        if x.id == e.id {
            assert(la[x.id as int].generation == e.generation);
            assert(lb[x.id as int].generation == e.generation);
        } else if shifted && x.id == moved.id {
        } else if x.id < lb.len() {
            assert(la[x.id as int] == lb[x.id as int]);
        }
    }
    assert forall|x: EntityId| x != e && is_live(before, x) implies #[trigger] spec_component_mask(after, x)
        == spec_component_mask(before, x) && parent_component(after, x) == parent_component(before, x)
        && name_component(after, x) == name_component(before, x) by {
        let loc = lb[x.id as int];
        assert(tb[loc.table_index as int].entity_indices@[loc.array_index as int].id == x.id);
        assert(x.id != e.id);
        if shifted && x.id == moved.id {
            assert(loc.table_index as int == ft && loc.array_index as int == last);
            if from.mask & NAME != 0 {
                assert(ta[ft].name@[fi] == from.name@[last]);
            }
            if from.mask & PARENT != 0 {
                assert(ta[ft].parent@[fi] == from.parent@[last]);
            }
        } else {
            assert(la[x.id as int] == lb[x.id as int]);
            let u = loc.table_index as int;
            let a = loc.array_index as int;
            if u == ft {
                assert(a != fi && a != last);
                if from.mask & NAME != 0 {
                    assert(ta[ft].name@[a] == from.name@[a]);
                }
                if from.mask & PARENT != 0 {
                    assert(ta[ft].parent@[a] == from.parent@[a]);
                }
            } else if u == tt {
                if to.mask & NAME != 0 {
                    assert(ta[tt].name@[a] == to.name@[a]);
                }
                if to.mask & PARENT != 0 {
                    assert(ta[tt].parent@[a] == to.parent@[a]);
                }
            } else {
                assert(ta[u] == tb[u]);
            }
        }
    }
}


/// Moves a live entity from its table to another, carrying its stored
/// components over; the last row of the old table fills the gap.
fn move_entity(context: &mut Context, entity: EntityId, from_table: usize, from_index: usize, to_table: usize)
    requires
        old(context).well_formed(),
        spec_get_location(locations_of(*old(context)), entity) == Some((from_table as int, from_index as int)),
        to_table < old(context).tables@.len(),
        from_table != to_table,
        old(context).tables@[to_table as int].entity_indices@.len() + 1 < 0x10000,
    ensures
        final(context).well_formed(),
        is_live(*final(context), entity),
        spec_component_mask(*final(context), entity) == Some(old(context).tables@[to_table as int].mask),
        name_component(*final(context), entity) == if old(context).tables@[to_table as int].mask & NAME != 0 {
            Some(carried_name(name_component(*old(context), entity)))
        } else {
            None
        },
        parent_component(*final(context), entity) == if old(context).tables@[to_table as int].mask & PARENT != 0 {
            Some(carried_parent(parent_component(*old(context), entity)))
        } else {
            None
        },
        forall|x: EntityId| x != entity ==> #[trigger] is_live(*final(context), x) == is_live(*old(context), x),
        forall|x: EntityId|
            x != entity && is_live(*old(context), x) ==> #[trigger] spec_component_mask(*final(context), x)
                == spec_component_mask(*old(context), x) && parent_component(*final(context), x) == parent_component(
                *old(context),
                x,
            ) && name_component(*final(context), x) == name_component(*old(context), x),
        final(context).tables@.len() == old(context).tables@.len(),
        table_rows(final(context).tables@) == table_rows(old(context).tables@).update(
            to_table as int,
            old(context).tables@[to_table as int].entity_indices@.push(entity),
        ).update(from_table as int, swap_removed(old(context).tables@[from_table as int].entity_indices@, from_index as int)),
        forall|t: int| 0 <= t < final(context).tables@.len() ==> (#[trigger] final(context).tables@[t]).mask == old(
            context,
        ).tables@[t].mask,
{
    let ghost before = *context;
    // Read the stored components.
    let name: Option<Name> = if context.tables[from_table].mask & NAME != 0 {
        Some(Name(context.tables[from_table].name[from_index].0.clone()))
    } else {
        None
    };
    let parent: Option<Parent> = if context.tables[from_table].mask & PARENT != 0 {
        Some(context.tables[from_table].parent[from_index])
    } else {
        None
    };
    // Append the entity to its new table.
    let mut table = ComponentArrays { name: Vec::new(), parent: Vec::new(), entity_indices: Vec::new(), mask: 0 };
    context.tables.set_and_swap(to_table, &mut table);
    if table.mask & NAME != 0 {
        match name {
            Some(n) => table.name.push(n),
            None => table.name.push(Name(String::new())),
        }
    }
    if table.mask & PARENT != 0 {
        match parent {
            Some(p) => table.parent.push(p),
            None => table.parent.push(Parent(EntityId { id: 0, generation: 0 })),
        }
    }
    table.entity_indices.push(entity);
    let new_index = table.entity_indices.len() - 1;
    context.tables.set_and_swap(to_table, &mut table);
    insert_location(&mut context.entity_locations, entity, (to_table, new_index));
    // Take it out of the old one.
    let mut source = ComponentArrays { name: Vec::new(), parent: Vec::new(), entity_indices: Vec::new(), mask: 0 };
    context.tables.set_and_swap(from_table, &mut source);
    let last_index = source.entity_indices.len() - 1;
    let swapped = if from_index < last_index {
        Some(source.entity_indices[last_index])
    } else {
        None
    };
    if source.mask & NAME != 0 {
        source.name.swap_remove(from_index);
    }
    if source.mask & PARENT != 0 {
        source.parent.swap_remove(from_index);
    }
    source.entity_indices.swap_remove(from_index);
    context.tables.set_and_swap(from_table, &mut source);
    if let Some(moved) = swapped {
        insert_location(&mut context.entity_locations, moved, (from_table, from_index));
    }
    proof {
        lemma_move_entity(before, *context, entity, from_table as int, from_index as int, to_table as int);
        assert(table_rows(context.tables@) =~= table_rows(before.tables@).update(
            to_table as int,
            before.tables@[to_table as int].entity_indices@.push(entity),
        ).update(from_table as int, swap_removed(before.tables@[from_table as int].entity_indices@, from_index as int)));
        assert forall|t: int| 0 <= t < context.tables@.len() implies (#[trigger] context.tables@[t]).mask
            == before.tables@[t].mask by {
            if t != from_table && t != to_table {
                assert(context.tables@[t] == before.tables@[t]);
            }
        }
    }
}

/// The rows after an entity moves from a row of one table to the end of the
/// table of a new mask (a new table added last when none holds it), the
/// last row of its old table filling the gap.
pub open spec fn rows_after_move(tables: Seq<ComponentArrays>, from: int, at: int, mask: u32, e: EntityId) -> Seq<Seq<EntityId>> {
    rows_with_appended(tables, mask, seq![e]).update(from, swap_removed(tables[from].entity_indices@, at))
}

/// Whether a change of components kept a context well formed, gave a live
/// entity the new mask with its stored components carried over (defaults for
/// new ones), and left every other entity as it was.
pub open spec fn remasked(before: Context, after: Context, e: EntityId, mask: u32) -> bool {
    &&& after.well_formed()
    &&& is_live(after, e)
    &&& spec_component_mask(after, e) == Some(mask)
    &&& name_component(after, e) == if mask & NAME != 0 {
        Some(carried_name(name_component(before, e)))
    } else {
        None
    }
    &&& parent_component(after, e) == if mask & PARENT != 0 {
        Some(carried_parent(parent_component(before, e)))
    } else {
        None
    }
    &&& forall|x: EntityId| x != e ==> #[trigger] is_live(after, x) == is_live(before, x)
    &&& forall|x: EntityId|
        x != e && is_live(before, x) ==> #[trigger] spec_component_mask(after, x) == spec_component_mask(before, x)
            && parent_component(after, x) == parent_component(before, x) && name_component(after, x)
            == name_component(before, x)
}

/// Moves a live entity to the table of a new mask (created when needed).
fn remask(context: &mut Context, entity: EntityId, table_index: usize, array_index: usize, mask: u32)
    requires
        old(context).well_formed(),
        spec_get_location(locations_of(*old(context)), entity) == Some((table_index as int, array_index as int)),
        old(context).tables@[table_index as int].mask != mask,
        has_room(*old(context), 1),
    ensures
        remasked(*old(context), *final(context), entity, mask),
        table_rows(final(context).tables@) == rows_after_move(
            old(context).tables@,
            table_index as int,
            array_index as int,
            mask,
            entity,
        ),
{
    let to_table = get_or_create_table(context, mask);
    let ghost created = *context;
    proof {
        assert(context.tables@[table_index as int] == old(context).tables@[table_index as int]);
    }
    move_entity(context, entity, table_index, array_index, to_table);
    proof {
        let old_tables = old(context).tables@;
        assert(created.tables@[to_table as int].entity_indices@.push(entity) =~= created.tables@[to_table as int].entity_indices@ + seq![entity]);
        match table_of(old_tables, mask) {
            Some(t) => {},
            None => {
                assert(created.tables@[to_table as int].entity_indices@ =~= Seq::<EntityId>::empty());
                assert(table_rows(created.tables@).update(to_table as int, seq![entity]) =~= table_rows(old_tables).push(seq![entity]));
            },
        }
        assert(table_rows(context.tables@) =~= rows_after_move(old_tables, table_index as int, array_index as int, mask, entity));
    }
}

/// Adds components to a live entity: says whether the entity was live. An
/// entity that already has them stays as it is.
pub fn add_components(context: &mut Context, entity: EntityId, mask: u32) -> (r: bool)
    requires
        old(context).well_formed(),
        has_room(*old(context), 1),
    ensures
        r == is_live(*old(context), entity),
        !r ==> *final(context) == *old(context),
        r ==> {
            let current = spec_component_mask(*old(context), entity)->Some_0;
            let (t, a) = spec_get_location(locations_of(*old(context)), entity)->Some_0;
            if current & mask == mask {
                *final(context) == *old(context)
            } else {
                &&& remasked(*old(context), *final(context), entity, current | mask)
                &&& table_rows(final(context).tables@) == rows_after_move(old(context).tables@, t, a, current | mask, entity)
            }
        },
{
    match get_location(&context.entity_locations, entity) {
        Some((table_index, array_index)) => {
            let current = context.tables[table_index].mask;
            if current & mask == mask {
                return true;
            }
            assert(current | mask != current) by (bit_vector)
                requires
                    current & mask != mask,
            ;
            remask(context, entity, table_index, array_index, current | mask);
            true
        },
        None => false,
    }
}

/// Removes components from a live entity: says whether the entity was live.
/// An entity that has none of them stays as it is.
pub fn remove_components(context: &mut Context, entity: EntityId, mask: u32) -> (r: bool)
    requires
        old(context).well_formed(),
        has_room(*old(context), 1),
    ensures
        r == is_live(*old(context), entity),
        !r ==> *final(context) == *old(context),
        r ==> {
            let current = spec_component_mask(*old(context), entity)->Some_0;
            let (t, a) = spec_get_location(locations_of(*old(context)), entity)->Some_0;
            if current & mask == 0 {
                *final(context) == *old(context)
            } else {
                &&& remasked(*old(context), *final(context), entity, current & !mask)
                &&& table_rows(final(context).tables@) == rows_after_move(old(context).tables@, t, a, current & !mask, entity)
            }
        },
{
    match get_location(&context.entity_locations, entity) {
        Some((table_index, array_index)) => {
            let current = context.tables[table_index].mask;
            if current & mask == 0 {
                return true;
            }
            assert(current & !mask != current) by (bit_vector)
                requires
                    current & mask != 0,
            ;
            remask(context, entity, table_index, array_index, current & !mask);
            true
        },
        None => false,
    }
}


/// Whether walking up from `e` through at most `n` parent links reaches
/// `target`.
pub open spec fn reaches_up(ctx: Context, e: EntityId, target: EntityId, n: nat) -> bool
    decreases n,
{
    n > 0 && match parent_component(ctx, e) {
        Some(p) => p == target || reaches_up(ctx, p, target, (n - 1) as nat),
        None => false,
    }
}

/// Whether `a` is a proper ancestor of `e`: some walk up from `e` reaches it.
pub open spec fn is_ancestor(ctx: Context, a: EntityId, e: EntityId) -> bool {
    exists|n: nat| reaches_up(ctx, e, a, n)
}

/// The highest rank among the entities live at the indices below `k`.
spec fn top_rank(ctx: Context, rank: spec_fn(EntityId) -> nat, k: nat) -> nat
    decreases k,
{
    if k == 0 {
        0
    } else {
        let id = (k - 1) as int;
        let e = EntityId { id: id as u32, generation: locations_of(ctx)[id].generation };
        let m = top_rank(ctx, rank, (k - 1) as nat);
        if is_live(ctx, e) && rank(e) > m {
            rank(e)
        } else {
            m
        }
    }
}

/// Every live entity at an index below `k` ranks at most the top rank.
proof fn lemma_top_rank(ctx: Context, rank: spec_fn(EntityId) -> nat, k: nat, e: EntityId)
    requires
        is_live(ctx, e),
        e.id < k <= locations_of(ctx).len(),
    ensures
        rank(e) <= top_rank(ctx, rank, k),
    decreases k,
{
    if e.id < k - 1 {
        lemma_top_rank(ctx, rank, (k - 1) as nat, e);
    } else {
        assert(e == EntityId { id: (k - 1) as u32, generation: locations_of(ctx)[k - 1].generation });
    }
}

/// What is left of a walk up from a live entity: it climbs in rank, so it
/// ends below the top rank.
spec fn climb_left(ctx: Context, rank: spec_fn(EntityId) -> nat, top: nat, e: EntityId) -> int {
    if is_live(ctx, e) {
        top + 2 - rank(e)
    } else {
        0
    }
}

/// Whether making `new_parent` the parent of `child` would close a loop:
/// they are the same entity, or `child` is already an ancestor of
/// `new_parent`.
pub fn would_create_cycle(context: &Context, child: EntityId, new_parent: EntityId) -> (r: bool)
    requires
        context.well_formed(),
        acyclic(*context),
    ensures
        r == (child == new_parent || is_ancestor(*context, child, new_parent)),
{
    if child == new_parent {
        return true;
    }
    let ghost ctx = *context;
    let ghost rank = choose|rank: spec_fn(EntityId) -> nat| ranks_parents(ctx, rank);
    let ghost top = top_rank(ctx, rank, locations_of(ctx).len());
    let mut current = new_parent;
    loop
        invariant
            ctx == *context,
            context.well_formed(),
            ranks_parents(ctx, rank),
            top == top_rank(ctx, rank, locations_of(ctx).len()),
            child != new_parent,
            is_ancestor(ctx, child, new_parent) == is_ancestor(ctx, child, current),
        decreases climb_left(ctx, rank, top, current),
    {
        match get_parent(context, current) {
            Some(Parent(parent)) => {
                if parent == child {
                    assert(reaches_up(ctx, current, child, 1));
                    return true;
                }
                proof {
                    assert(is_live(ctx, current));
                    lemma_top_rank(ctx, rank, locations_of(ctx).len(), current);
                    assert(rank(current) < rank(parent));
                    if is_live(ctx, parent) {
                        lemma_top_rank(ctx, rank, locations_of(ctx).len(), parent);
                    }
                    if is_ancestor(ctx, child, current) {
                        let n = choose|n: nat| reaches_up(ctx, current, child, n);
                        assert(reaches_up(ctx, parent, child, (n - 1) as nat));
                    }
                    if is_ancestor(ctx, child, parent) {
                        let n = choose|n: nat| reaches_up(ctx, parent, child, n);
                        assert(reaches_up(ctx, current, child, n + 1));
                    }
                }
                current = parent;
            },
            None => {
                proof {
                    if is_ancestor(ctx, child, current) {
                        let n = choose|n: nat| reaches_up(ctx, current, child, n);
                        assert(!reaches_up(ctx, current, child, n));
                    }
                }
                return false;
            },
        }
    }
}

} // verus!
