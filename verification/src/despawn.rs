//! Despawning: taking a list of entities out of the scene store.
use vstd::prelude::*;

use crate::scene::{
    ComponentArrays, Context, EntityId, EntityLocation, NAME, PARENT, is_live, located, locations_of,
    name_component, parent_component, spec_component_mask, spec_get_location, swap_removed, table_rows,
};

verus! {

/// The generation an index takes when its entity is despawned.
pub open spec fn next_generation(g: u32) -> u32 {
    if g == u32::MAX {
        0
    } else {
        (g + 1) as u32
    }
}

/// The handles a despawn takes out: those live beforehand, each once, in the
/// order first listed.
pub open spec fn despawned_list(locations: Seq<EntityLocation>, entities: Seq<EntityId>) -> Seq<EntityId>
    decreases entities.len(),
{
    if entities.len() == 0 {
        seq![]
    } else {
        let before = despawned_list(locations, entities.drop_last());
        let e = entities.last();
        if spec_get_location(locations, e) is Some && !before.contains(e) {
            before.push(e)
        } else {
            before
        }
    }
}

/// The table and row each listed entity occupies.
pub open spec fn despawn_places(locations: Seq<EntityLocation>, list: Seq<EntityId>) -> Seq<(usize, usize)> {
    Seq::new(
        list.len(),
        |k: int|
            (
                locations[list[k].id as int].table_index as usize,
                locations[list[k].id as int].array_index as usize,
            ),
    )
}

/// The number of rows of each table.
pub open spec fn table_lengths(tables: Seq<ComponentArrays>) -> Seq<int> {
    Seq::new(tables.len(), |t: int| tables[t].entity_indices@.len() as int)
}

/// Whether taking rows out at these places, the last listed first, each by
/// moving its table's last row into the gap, never moves a row that is still
/// to be taken out (its recorded place would then be past the table's end).
pub open spec fn removals_safe(lens: Seq<int>, places: Seq<(usize, usize)>) -> bool
    decreases places.len(),
{
    if places.len() == 0 {
        true
    } else {
        let p = places.last();
        let rest = places.drop_last();
        let last = lens[p.0 as int] - 1;
        &&& (p.1 as int == last || !rest.contains((p.0, last as usize)))
        &&& removals_safe(lens.update(p.0 as int, last), rest)
    }
}

/// Whether a despawn of these handles runs to its end: its row removals are
/// safe.
pub open spec fn despawn_safe(ctx: Context, entities: Seq<EntityId>) -> bool {
    let list = despawned_list(locations_of(ctx), entities);
    removals_safe(table_lengths(ctx.tables@), despawn_places(locations_of(ctx), list))
}

/// The rows of each table after taking out the rows at these places, the
/// last listed first, each by moving its table's last row into the gap.
pub open spec fn rows_after_removals(rows: Seq<Seq<EntityId>>, places: Seq<(usize, usize)>) -> Seq<Seq<EntityId>>
    decreases places.len(),
{
    if places.len() == 0 {
        rows
    } else {
        let p = places.last();
        rows_after_removals(rows.update(p.0 as int, swap_removed(rows[p.0 as int], p.1 as int)), places.drop_last())
    }
}

/// The indices a despawn hands back to the allocator, with their next
/// generations.
pub open spec fn freed(list: Seq<EntityId>) -> Seq<(u32, u32)> {
    Seq::new(list.len(), |k: int| (list[k].id, next_generation(list[k].generation)))
}

/// The store while rows wait to be taken out: as [`Context::well_formed`],
/// except that the waiting rows still hold their entities, whose indices are
/// no longer allocated.
spec fn waiting_wf(ctx: Context, waiting: Seq<EntityId>, places: Seq<(usize, usize)>) -> bool {
    let tables = ctx.tables@;
    let locations = ctx.entity_locations.locations@;
    &&& tables.len() <= 0x10000
    &&& forall|t: int|
        0 <= t < tables.len() ==> {
            let table = #[trigger] tables[t];
            &&& table.entity_indices@.len() <= 0x10000
            &&& table.name@.len() == (if table.mask & NAME != 0 { table.entity_indices@.len() } else { 0 })
            &&& table.parent@.len() == (if table.mask & PARENT != 0 { table.entity_indices@.len() } else { 0 })
        }
    &&& waiting.len() == places.len()
    &&& forall|k: int|
        0 <= k < places.len() ==> {
            let p = #[trigger] places[k];
            &&& (p.0 as int) < tables.len()
            &&& (p.1 as int) < tables[p.0 as int].entity_indices@.len()
            &&& tables[p.0 as int].entity_indices@[p.1 as int] == waiting[k]
            &&& (waiting[k].id as int) < locations.len()
            &&& !locations[waiting[k].id as int].allocated
        }
    &&& forall|k: int, l: int| 0 <= k < l < waiting.len() ==> (#[trigger] waiting[k]).id != (#[trigger] waiting[l]).id
    &&& forall|t: int, a: int|
        0 <= t < tables.len() && 0 <= a < tables[t].entity_indices@.len() ==> located(
            locations,
            #[trigger] tables[t].entity_indices@[a],
            t,
            a,
        ) || places.contains((t as usize, a as usize))
    &&& forall|id: int|
        0 <= id < locations.len() && (#[trigger] locations[id]).allocated ==> {
            let loc = locations[id];
            &&& (loc.table_index as int) < tables.len()
            &&& (loc.array_index as int) < tables[loc.table_index as int].entity_indices@.len()
            &&& tables[loc.table_index as int].entity_indices@[loc.array_index as int] == EntityId {
                id: id as u32,
                generation: loc.generation,
            }
        }
    &&& ctx.allocator.well_formed(locations)
}

/// The stored-component view of a live entity is the same in two contexts.
pub open spec fn same_entity(a: Context, b: Context, x: EntityId) -> bool {
    &&& spec_component_mask(a, x) == spec_component_mask(b, x)
    &&& parent_component(a, x) == parent_component(b, x)
    &&& name_component(a, x) == name_component(b, x)
}

/// Taking out the last waiting row, by moving its table's last row into the
/// gap, keeps the store waiting on the others, keeps the rest of the removals
/// safe, and leaves every entity's liveness and stored components as they
/// were.
proof fn lemma_remove_waiting(before: Context, after: Context, waiting: Seq<EntityId>, places: Seq<(usize, usize)>)
    requires
        waiting_wf(before, waiting, places),
        places.len() > 0,
        removals_safe(table_lengths(before.tables@), places),
        after.allocator == before.allocator,
        after.tables@.len() == before.tables@.len(),
        ({
            let t = places.last().0 as int;
            let a = places.last().1 as int;
            let from = before.tables@[t];
            let to = after.tables@[t];
            let last = from.entity_indices@.len() - 1;
            let m = from.entity_indices@[last];
            let lb = locations_of(before);
            &&& forall|u: int| 0 <= u < before.tables@.len() && u != t ==> #[trigger] after.tables@[u] == before.tables@[u]
            &&& to.mask == from.mask
            &&& to.entity_indices@ == swap_removed(from.entity_indices@, a)
            &&& to.name@ == (if from.mask & NAME != 0 { swap_removed(from.name@, a) } else { from.name@ })
            &&& to.parent@ == (if from.mask & PARENT != 0 { swap_removed(from.parent@, a) } else { from.parent@ })
            &&& locations_of(after) == if a < last && (m.id as int) < lb.len() && lb[m.id as int].allocated {
                lb.update(
                    m.id as int,
                    EntityLocation {
                        generation: lb[m.id as int].generation,
                        table_index: lb[m.id as int].table_index,
                        array_index: a as u16,
                        allocated: true,
                    },
                )
            } else {
                lb
            }
        }),
    ensures
        waiting_wf(after, waiting.drop_last(), places.drop_last()),
        removals_safe(table_lengths(after.tables@), places.drop_last()),
        locations_of(after).len() == locations_of(before).len(),
        forall|id: int|
            0 <= id < locations_of(before).len() ==> (#[trigger] locations_of(after)[id]).generation == locations_of(
                before,
            )[id].generation && locations_of(after)[id].allocated == locations_of(before)[id].allocated,
        forall|x: EntityId| #[trigger] is_live(after, x) == is_live(before, x),
        forall|x: EntityId| is_live(before, x) ==> #[trigger] same_entity(after, before, x),
        forall|u: int| 0 <= u < after.tables@.len() ==> (#[trigger] after.tables@[u]).mask == before.tables@[u].mask,
{
    let lb = locations_of(before);
    let la = locations_of(after);
    let tb = before.tables@;
    let ta = after.tables@;
    let n = places.len() - 1;
    let p = places[n];
    let t = p.0 as int;
    let a = p.1 as int;
    let from = tb[t];
    let to = ta[t];
    let last = from.entity_indices@.len() - 1;
    let m = from.entity_indices@[last];
    let rest = places.drop_last();
    let wrest = waiting.drop_last();
    let w = waiting[n];
    assert(places.last() == p);
    assert(from.entity_indices@[a] == w);
    assert(!lb[w.id as int].allocated);
    let shifted = a < last;
    assert(p.1 as int == last || !rest.contains((p.0, last as usize)));
    if shifted {
        if places.contains((t as usize, last as usize)) {
            let k = choose|k: int| 0 <= k < places.len() && places[k] == (t as usize, last as usize);
            assert(k != n);
            assert(rest[k] == places[k]);
            assert(false);
        }
        assert(located(lb, m, t, last));
        assert(m.id != w.id);
    }
    // The waiting places are distinct, each holding its own entity.
    assert forall|k: int| 0 <= k < n implies #[trigger] places[k] != p by {
        assert(waiting[k].id != waiting[n].id);
    }
    assert forall|id: int| 0 <= id < lb.len() && !(shifted && id == m.id) implies #[trigger] la[id] == lb[id] by {}
    // Every row is located or waits.
    assert forall|u: int, b: int| 0 <= u < ta.len() && 0 <= b < ta[u].entity_indices@.len() implies located(
        la,
        #[trigger] ta[u].entity_indices@[b],
        u,
        b,
    ) || rest.contains((u as usize, b as usize)) by {
        if u == t && shifted && b == a {
            assert(ta[u].entity_indices@[b] == m);
        } else {
            let y = tb[u].entity_indices@[b];
            assert(ta[u].entity_indices@[b] == y);
            if located(lb, y, u, b) {
                if shifted {
                    assert(y.id != m.id);
                }
                assert(la[y.id as int] == lb[y.id as int]);
            } else {
                assert(places.contains((u as usize, b as usize)));
                let k = choose|k: int| 0 <= k < places.len() && places[k] == (u as usize, b as usize);
                assert(k != n);
                assert(rest[k] == places[k]);
            }
        }
    }
    // Every allocated location names its row.
    assert forall|id: int| 0 <= id < la.len() && (#[trigger] la[id]).allocated implies {
        let loc = la[id];
        &&& (loc.table_index as int) < ta.len()
        &&& (loc.array_index as int) < ta[loc.table_index as int].entity_indices@.len()
        &&& ta[loc.table_index as int].entity_indices@[loc.array_index as int] == EntityId {
            id: id as u32,
            generation: loc.generation,
        }
    } by {
        if shifted && id == m.id {
        } else {
            assert(la[id] == lb[id]);
            let loc = lb[id];
            let u = loc.table_index as int;
            let b = loc.array_index as int;
            assert(tb[u].entity_indices@[b].id == id);
            if u == t {
                assert(b != a);
                assert(b != last);
                assert(ta[u].entity_indices@[b] == tb[u].entity_indices@[b]);
            } else {
                assert(ta[u] == tb[u]);
            }
        }
    }
    // The other waiting rows stay where they were.
    assert forall|k: int| 0 <= k < rest.len() implies {
        let q = #[trigger] rest[k];
        &&& (q.0 as int) < ta.len()
        &&& (q.1 as int) < ta[q.0 as int].entity_indices@.len()
        &&& ta[q.0 as int].entity_indices@[q.1 as int] == wrest[k]
        &&& (wrest[k].id as int) < la.len()
        &&& !la[wrest[k].id as int].allocated
    } by {
        let q = places[k];
        assert(rest[k] == q);
        assert(wrest[k] == waiting[k]);
        assert(q != p);
        assert(waiting[k].id != w.id);
        if q.0 as int == t {
            assert(q.1 as int != a);
            if shifted {
                assert(!rest.contains((p.0, last as usize)));
                assert(q.1 as int != last);
            }
        } else {
            assert(ta[q.0 as int] == tb[q.0 as int]);
        }
        if shifted {
            assert(waiting[k].id != m.id);
        }
    }
    assert forall|k: int, l: int| 0 <= k < l < wrest.len() implies (#[trigger] wrest[k]).id != (#[trigger] wrest[l]).id by {
        assert(wrest[k] == waiting[k]);
        assert(wrest[l] == waiting[l]);
    }
    assert forall|u: int| 0 <= u < ta.len() implies {
        let table = #[trigger] ta[u];
        &&& table.entity_indices@.len() <= 0x10000
        &&& table.name@.len() == (if table.mask & NAME != 0 { table.entity_indices@.len() } else { 0 })
        &&& table.parent@.len() == (if table.mask & PARENT != 0 { table.entity_indices@.len() } else { 0 })
    } by {
        if u != t {
            assert(ta[u] == tb[u]);
        }
    }
    let al = after.allocator;
    assert(al.well_formed(la)) by {
        assert forall|id: int| al.next_id <= id < la.len() implies #[trigger] la[id] == EntityLocation {
            generation: 0,
            table_index: 0,
            array_index: 0,
            allocated: false,
        } by {
            assert(la[id] == lb[id]);
        }
        assert forall|k: int| 0 <= k < al.free_ids@.len() implies (#[trigger] al.free_ids@[k]).0 < al.next_id
            && !la[al.free_ids@[k].0 as int].allocated by {
            let id = al.free_ids@[k].0 as int;
            assert(la[id] == lb[id]);
        }
    }
    assert(waiting_wf(after, wrest, rest));
    assert(table_lengths(ta) =~= table_lengths(tb).update(t, last));
    assert forall|id: int| 0 <= id < lb.len() implies (#[trigger] la[id]).generation == lb[id].generation
        && la[id].allocated == lb[id].allocated by {}
    assert forall|x: EntityId| #[trigger] is_live(after, x) == is_live(before, x) by {
        if x.id < lb.len() {
            assert(la[x.id as int].generation == lb[x.id as int].generation);
        }
    }
    assert forall|x: EntityId| is_live(before, x) implies #[trigger] same_entity(after, before, x) by {
        let loc = lb[x.id as int];
        let u = loc.table_index as int;
        let b = loc.array_index as int;
        assert(tb[u].entity_indices@[b].id == x.id);
        if shifted && x.id == m.id {
            assert(u == t && b == last);
            if from.mask & NAME != 0 {
                assert(ta[t].name@[a] == from.name@[last]);
            }
            if from.mask & PARENT != 0 {
                assert(ta[t].parent@[a] == from.parent@[last]);
            }
        } else {
            assert(la[x.id as int] == lb[x.id as int]);
            if u == t {
                assert(b != a && b != last);
                if from.mask & NAME != 0 {
                    assert(ta[t].name@[b] == from.name@[b]);
                }
                if from.mask & PARENT != 0 {
                    assert(ta[t].parent@[b] == from.parent@[b]);
                }
            } else {
                assert(ta[u] == tb[u]);
            }
        }
    }
    assert forall|u: int| 0 <= u < ta.len() implies (#[trigger] ta[u]).mask == tb[u].mask by {
        if u != t {
            assert(ta[u] == tb[u]);
        }
    }
}

/// Freeing a live entity's index (its location unallocated, with the next
/// generation, and the index handed to the allocator) leaves its row waiting
/// to be taken out.
proof fn lemma_mark_waiting(
    start: Context,
    before: Context,
    after: Context,
    list: Seq<EntityId>,
    places: Seq<(usize, usize)>,
    e: EntityId,
)
    requires
        start.well_formed(),
        waiting_wf(before, list, places),
        before.tables@ == start.tables@,
        after.tables@ == before.tables@,
        after.allocator.next_id == before.allocator.next_id,
        after.allocator.free_ids@ == before.allocator.free_ids@.push((e.id, next_generation(e.generation))),
        locations_of(before).len() == locations_of(start).len(),
        (e.id as int) < locations_of(before).len(),
        locations_of(before)[e.id as int].allocated,
        locations_of(before)[e.id as int].generation == e.generation,
        locations_of(after) == locations_of(before).update(
            e.id as int,
            EntityLocation {
                generation: next_generation(e.generation),
                table_index: locations_of(before)[e.id as int].table_index,
                array_index: locations_of(before)[e.id as int].array_index,
                allocated: false,
            },
        ),
        forall|k: int|
            0 <= k < list.len() ==> locations_of(before)[(#[trigger] list[k]).id as int].generation == next_generation(
                list[k].generation,
            ),
        forall|id: int|
            0 <= id < locations_of(start).len() && (#[trigger] locations_of(before)[id]).allocated ==> locations_of(
                before,
            )[id] == locations_of(start)[id],
        forall|id: int|
            0 <= id < locations_of(start).len() && !(#[trigger] locations_of(start)[id]).allocated ==> locations_of(
                before,
            )[id] == locations_of(start)[id],
        forall|id: int|
            0 <= id < locations_of(start).len() && (#[trigger] locations_of(start)[id]).allocated
                && !locations_of(before)[id].allocated ==> list.contains(
                EntityId { id: id as u32, generation: locations_of(start)[id].generation },
            ),
    ensures
        ({
            let loc = locations_of(before)[e.id as int];
            waiting_wf(after, list.push(e), places.push((loc.table_index as usize, loc.array_index as usize)))
        }),
        forall|k: int|
            0 <= k < list.len() + 1 ==> locations_of(after)[(#[trigger] list.push(e)[k]).id as int].generation
                == next_generation(list.push(e)[k].generation),
        forall|id: int|
            0 <= id < locations_of(start).len() && (#[trigger] locations_of(after)[id]).allocated ==> locations_of(
                after,
            )[id] == locations_of(start)[id],
        forall|id: int|
            0 <= id < locations_of(start).len() && !(#[trigger] locations_of(start)[id]).allocated ==> locations_of(
                after,
            )[id] == locations_of(start)[id],
        forall|id: int|
            0 <= id < locations_of(start).len() && (#[trigger] locations_of(start)[id]).allocated
                && !locations_of(after)[id].allocated ==> list.push(e).contains(
                EntityId { id: id as u32, generation: locations_of(start)[id].generation },
            ),
{
    let l0 = locations_of(start);
    let lb = locations_of(before);
    let la = locations_of(after);
    let tables = before.tables@;
    let loc = lb[e.id as int];
    let t = loc.table_index as int;
    let a = loc.array_index as int;
    let p = (loc.table_index as usize, loc.array_index as usize);
    let list2 = list.push(e);
    let places2 = places.push(p);
    let n = list.len() as int;
    assert(tables[t].entity_indices@[a] == e);
    assert(lb[e.id as int] == l0[e.id as int]);
    // The waiting entities' indices are not allocated, so differ from e's.
    assert forall|k: int| 0 <= k < list.len() implies (#[trigger] list[k]).id != e.id by {
        assert(places[k] == places[k]);
    }
    assert forall|id: int| 0 <= id < lb.len() && id != e.id implies #[trigger] la[id] == lb[id] by {}
    assert forall|k: int| 0 <= k < places2.len() implies {
        let q = #[trigger] places2[k];
        &&& (q.0 as int) < tables.len()
        &&& (q.1 as int) < tables[q.0 as int].entity_indices@.len()
        &&& tables[q.0 as int].entity_indices@[q.1 as int] == list2[k]
        &&& (list2[k].id as int) < la.len()
        &&& !la[list2[k].id as int].allocated
    } by {
        if k < n {
            assert(places2[k] == places[k]);
            assert(list2[k] == list[k]);
            assert(list[k].id != e.id);
        }
    }
    assert forall|k: int, l: int| 0 <= k < l < list2.len() implies (#[trigger] list2[k]).id != (#[trigger] list2[l]).id by {
        if l == n {
            assert(list2[k] == list[k]);
            assert(list[k].id != e.id);
        } else {
            assert(list2[k] == list[k]);
            assert(list2[l] == list[l]);
        }
    }
    assert forall|u: int, b: int| 0 <= u < tables.len() && 0 <= b < tables[u].entity_indices@.len() implies located(
        la,
        #[trigger] tables[u].entity_indices@[b],
        u,
        b,
    ) || places2.contains((u as usize, b as usize)) by {
        let y = tables[u].entity_indices@[b];
        if u == t && b == a {
            assert(places2[n] == (u as usize, b as usize));
        } else if located(lb, y, u, b) {
            assert(y.id != e.id);
            assert(la[y.id as int] == lb[y.id as int]);
        } else {
            assert(places.contains((u as usize, b as usize)));
            let k = choose|k: int| 0 <= k < places.len() && places[k] == (u as usize, b as usize);
            assert(places2[k] == places[k]);
        }
    }
    assert forall|id: int| 0 <= id < la.len() && (#[trigger] la[id]).allocated implies {
        let l = la[id];
        &&& (l.table_index as int) < tables.len()
        &&& (l.array_index as int) < tables[l.table_index as int].entity_indices@.len()
        &&& tables[l.table_index as int].entity_indices@[l.array_index as int] == EntityId {
            id: id as u32,
            generation: l.generation,
        }
    } by {
        assert(id != e.id);
        assert(la[id] == lb[id]);
    }
    let al = after.allocator;
    let bl = before.allocator;
    assert(e.id < bl.next_id);
    assert(al.well_formed(la)) by {
        assert forall|id: int| al.next_id <= id < la.len() implies #[trigger] la[id] == EntityLocation {
            generation: 0,
            table_index: 0,
            array_index: 0,
            allocated: false,
        } by {
            assert(la[id] == lb[id]);
        }
        assert forall|k: int| 0 <= k < al.free_ids@.len() implies (#[trigger] al.free_ids@[k]).0 < al.next_id
            && !la[al.free_ids@[k].0 as int].allocated by {
            if k < bl.free_ids@.len() {
                assert(al.free_ids@[k] == bl.free_ids@[k]);
                let id = bl.free_ids@[k].0 as int;
                assert(id != e.id);
                assert(la[id] == lb[id]);
            }
        }
        assert forall|k: int, l: int| 0 <= k < l < al.free_ids@.len() implies (#[trigger] al.free_ids@[k]).0
            != (#[trigger] al.free_ids@[l]).0 by {
            assert(al.free_ids@[k] == bl.free_ids@[k]);
            if l < bl.free_ids@.len() {
                assert(al.free_ids@[l] == bl.free_ids@[l]);
            } else {
                let id = bl.free_ids@[k].0 as int;
                assert(!lb[id].allocated);
            }
        }
    }
    assert(waiting_wf(after, list2, places2));
    assert forall|k: int| 0 <= k < list.len() + 1 implies la[(#[trigger] list2[k]).id as int].generation
        == next_generation(list2[k].generation) by {
        if k < n {
            assert(list2[k] == list[k]);
            assert(list[k].id != e.id);
            assert(places[k] == places[k]);
            assert(la[list[k].id as int] == lb[list[k].id as int]);
            assert(lb[list[k].id as int].generation == next_generation(list[k].generation));
        } else {
            assert(list2[k] == e);
            assert(la[e.id as int].generation == next_generation(e.generation));
        }
    }
    assert forall|id: int| 0 <= id < l0.len() && (#[trigger] l0[id]).allocated && !la[id].allocated implies list2.contains(
        EntityId { id: id as u32, generation: l0[id].generation },
    ) by {
        if id == e.id {
            assert(list2[n] == e);
        } else {
            assert(la[id] == lb[id]);
            let x = EntityId { id: id as u32, generation: l0[id].generation };
            let k = choose|k: int| 0 <= k < list.len() && list[k] == x;
            assert(list2[k] == x);
        }
    }
}

/// Despawns the listed entities: each live handle's index is freed with its
/// next generation and its row taken out of its table, the table's last row
/// moving into the gap. Stale, unknown and repeated handles are skipped.
/// Returns the handles despawned, in the order first listed.
pub fn despawn_entities(context: &mut Context, entities: &[EntityId]) -> (r: Vec<EntityId>)
    requires
        old(context).well_formed(),
        despawn_safe(*old(context), entities@),
    ensures
        final(context).well_formed(),
        r@ == despawned_list(locations_of(*old(context)), entities@),
        forall|x: EntityId| #[trigger] is_live(*final(context), x) == (is_live(*old(context), x) && !r@.contains(x)),
        forall|x: EntityId| is_live(*final(context), x) ==> #[trigger] same_entity(*final(context), *old(context), x),
        forall|k: int|
            0 <= k < r@.len() ==> locations_of(*final(context))[#[trigger] r@[k].id as int].generation
                == next_generation(r@[k].generation),
        final(context).allocator.next_id == old(context).allocator.next_id,
        final(context).allocator.free_ids@ == old(context).allocator.free_ids@ + freed(r@),
        final(context).tables@.len() == old(context).tables@.len(),
        forall|t: int| 0 <= t < final(context).tables@.len() ==> (#[trigger] final(context).tables@[t]).mask == old(
            context,
        ).tables@[t].mask,
        table_rows(final(context).tables@) == rows_after_removals(
            table_rows(old(context).tables@),
            despawn_places(locations_of(*old(context)), r@),
        ),
{
    let ghost start = *context;
    let ghost locs0 = locations_of(start);
    let mut despawned: Vec<EntityId> = Vec::new();
    let mut places: Vec<(usize, usize)> = Vec::new();
    let mut i: usize = 0;
    // Free the live indices and note where their rows are.
    while i < entities.len()
        invariant
            i <= entities@.len(),
            start.well_formed(),
            locs0 == locations_of(start),
            context.tables@ == start.tables@,
            context.allocator.next_id == start.allocator.next_id,
            context.allocator.free_ids@ == start.allocator.free_ids@ + freed(despawned@),
            locations_of(*context).len() == locs0.len(),
            despawned@ == despawned_list(locs0, entities@.take(i as int)),
            places@ == despawn_places(locs0, despawned@),
            waiting_wf(*context, despawned@, places@),
            forall|k: int|
                0 <= k < despawned@.len() ==> is_live(start, #[trigger] despawned@[k])
                    && locations_of(*context)[despawned@[k].id as int].generation == next_generation(despawned@[k].generation),
            forall|id: int|
                0 <= id < locs0.len() && (#[trigger] locations_of(*context)[id]).allocated ==> locations_of(*context)[id]
                    == locs0[id],
            forall|id: int| 0 <= id < locs0.len() && !(#[trigger] locs0[id]).allocated ==> locations_of(*context)[id] == locs0[id],
            forall|id: int|
                0 <= id < locs0.len() && (#[trigger] locs0[id]).allocated && !locations_of(*context)[id].allocated
                    ==> despawned@.contains(EntityId { id: id as u32, generation: locs0[id].generation }),
        decreases entities@.len() - i,
    {
        let ghost before = *context;
        let ghost list0 = despawned@;
        let ghost places0 = places@;
        let entity = entities[i];
        proof {
            assert(entities@.take(i + 1).drop_last() =~= entities@.take(i as int));
            assert(entities@.take(i + 1).last() == entity);
        }
        let id = entity.id as usize;
        if id < context.entity_locations.locations.len() {
            let mut loc = context.entity_locations.locations[id];
            if loc.allocated && loc.generation == entity.generation {
                let table_idx = loc.table_index as usize;
                let array_idx = loc.array_index as usize;
                proof {
                    assert(locs0[id as int] == loc);
                    if list0.contains(entity) {
                        let k = choose|k: int| 0 <= k < list0.len() && list0[k] == entity;
                        assert(places@[k] == places@[k]);
                        assert(false);
                    }
                }
                loc.allocated = false;
                loc.generation = loc.generation.wrapping_add(1);
                context.entity_locations.locations.set(id, loc);
                context.allocator.free_ids.push((entity.id, loc.generation));
                places.push((table_idx, array_idx));
                despawned.push(entity);
                proof {
                    assert(loc.generation == next_generation(entity.generation));
                    lemma_mark_waiting(start, before, *context, list0, places0, entity);
                    assert(places0.push((table_idx, array_idx)) =~= places@);
                    assert(despawn_places(locs0, despawned@) =~= places@);
                    assert(freed(despawned@) =~= freed(list0).push((entity.id, next_generation(entity.generation))));
                }
            } else {
                proof {
                    if spec_get_location(locs0, entity) is Some {
                        if loc.allocated {
                            assert(locs0[id as int] == loc);
                        }
                        assert(list0.contains(EntityId { id: entity.id, generation: locs0[id as int].generation }));
                    }
                }
            }
        }
        i += 1;
    }
    proof {
        assert(entities@.take(entities@.len() as int) =~= entities@);
        assert(despawned@ == despawned_list(locs0, entities@));
        assert(despawned@.take(despawned@.len() as int) =~= despawned@);
        assert(places@.take(places@.len() as int) =~= places@);
        assert(removals_safe(table_lengths(start.tables@), despawn_places(locs0, despawned@)));
    }
    let ghost marked = *context;
    let mut j: usize = places.len();
    // Take the rows out, the last noted first.
    while j > 0
        invariant
            j <= places@.len(),
            places@.len() == despawned@.len(),
            waiting_wf(*context, despawned@.take(j as int), places@.take(j as int)),
            removals_safe(table_lengths(context.tables@), places@.take(j as int)),
            context.allocator == marked.allocator,
            context.tables@.len() == marked.tables@.len(),
            forall|t: int| 0 <= t < context.tables@.len() ==> (#[trigger] context.tables@[t]).mask == marked.tables@[t].mask,
            locations_of(*context).len() == locations_of(marked).len(),
            forall|id: int|
                0 <= id < locations_of(marked).len() ==> (#[trigger] locations_of(*context)[id]).generation
                    == locations_of(marked)[id].generation && locations_of(*context)[id].allocated == locations_of(
                    marked,
                )[id].allocated,
            forall|x: EntityId| #[trigger] is_live(*context, x) == is_live(marked, x),
            forall|x: EntityId| is_live(marked, x) ==> #[trigger] same_entity(*context, marked, x),
            rows_after_removals(table_rows(context.tables@), places@.take(j as int)) == rows_after_removals(
                table_rows(marked.tables@),
                places@,
            ),
        decreases j,
    {
        let ghost before = *context;
        let ghost waiting = despawned@.take(j as int);
        let ghost waiting_places = places@.take(j as int);
        j -= 1;
        let (table_idx, array_idx) = places[j];
        proof {
            assert(waiting_places.last() == (table_idx, array_idx));
            assert(waiting_places[j as int] == (table_idx, array_idx));
        }
        let mut table = ComponentArrays { name: Vec::new(), parent: Vec::new(), entity_indices: Vec::new(), mask: 0 };
        context.tables.set_and_swap(table_idx, &mut table);
        let last_idx = table.entity_indices.len() - 1;
        if array_idx < last_idx {
            let moved = table.entity_indices[last_idx];
            let moved_id = moved.id as usize;
            if moved_id < context.entity_locations.locations.len() {
                let mut loc = context.entity_locations.locations[moved_id];
                if loc.allocated {
                    loc.array_index = array_idx as u16;
                    context.entity_locations.locations.set(moved_id, loc);
                }
            }
        }
        if table.mask & NAME != 0 {
            table.name.swap_remove(array_idx);
        }
        if table.mask & PARENT != 0 {
            table.parent.swap_remove(array_idx);
        }
        table.entity_indices.swap_remove(array_idx);
        context.tables.set_and_swap(table_idx, &mut table);
        proof {
            lemma_remove_waiting(before, *context, waiting, waiting_places);
            assert(waiting.drop_last() =~= despawned@.take(j as int));
            assert(waiting_places.drop_last() =~= places@.take(j as int));
            assert(table_rows(context.tables@) =~= table_rows(before.tables@).update(
                table_idx as int,
                swap_removed(table_rows(before.tables@)[table_idx as int], array_idx as int),
            ));
            assert forall|x: EntityId| is_live(marked, x) implies #[trigger] same_entity(*context, marked, x) by {
                assert(is_live(before, x));
                assert(same_entity(before, marked, x));
                assert(same_entity(*context, before, x));
            }
        }
    }
    proof {
        assert(despawned@.take(0) =~= Seq::<EntityId>::empty());
        assert(places@.take(0) =~= Seq::<(usize, usize)>::empty());
        let ctx = *context;
        assert forall|x: EntityId| is_live(ctx, x) implies #[trigger] same_entity(ctx, start, x) by {
            assert(same_entity(ctx, marked, x));
            assert(is_live(marked, x));
            assert(locations_of(marked)[x.id as int] == locs0[x.id as int]);
        }
        assert forall|x: EntityId| #[trigger] is_live(ctx, x) == (is_live(start, x) && !despawned@.contains(x)) by {
            assert(is_live(ctx, x) == is_live(marked, x));
            if x.id < locs0.len() {
                let id = x.id as int;
                if despawned@.contains(x) {
                    let k = choose|k: int| 0 <= k < despawned@.len() && despawned@[k] == x;
                    assert(places@[k] == places@[k]);
                }
                if is_live(start, x) && !locations_of(marked)[id].allocated {
                    assert(despawned@.contains(EntityId { id: id as u32, generation: locs0[id].generation }));
                }
            }
        }
    }
    despawned
}

} // verus!
