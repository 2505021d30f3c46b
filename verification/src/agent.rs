//! The worker side of the agent protocol: entity liveness, the per-frame
//! delta stream, snapshots, and the reads the agent can make.
use std::collections::HashMap;
use vstd::prelude::*;
use vstd::string::StringExecFns;

use crate::json::{JsonValue, JsonView, pairs_view};
use crate::protocol::{
    AgentCommand, AgentResponse, CorrelationId, Delta, DeltaBatch, DeltaView, EntityRef, GetResult, Snapshot,
    SnapshotEntity, SubscriptionFilter, SubscriptionId, Version, deltas_view, names_view,
    snapshot_entities_view,
};
use crate::registry::{
    ComponentEntry, EntryView, entries_view, filter_entries, find, mask_for, spec_filter_entries,
    spec_find, spec_mask_for, spec_writable_mask, covered, tracked_entries,
    writable_mask,
};
use crate::seqs::{first_where, lemma_first_where, lemma_first_where_is, lemma_first_where_none};

verus! {

broadcast use vstd::std_specs::hash::group_hash_axioms;

/// An engine entity: a slot index and the generation of its occupant.
#[derive(Clone, Copy, Debug, PartialEq, Eq, Structural)]
pub struct Entity {
    pub id: u32,
    pub generation: u32,
}

/// The handle an entity crosses the agent boundary as.
pub open spec fn spec_to_ref(entity: Entity) -> EntityRef {
    EntityRef { id: entity.id, generation: entity.generation }
}

/// Converts an entity to its agent handle.
pub fn to_ref(entity: Entity) -> (r: EntityRef)
    ensures
        r == spec_to_ref(entity),
{
    EntityRef { id: entity.id, generation: entity.generation }
}

/// Each entity's component mask, one pair per live entity.
pub type Masks = Vec<(Entity, u64)>;

/// The predicate "this pair is about the given entity".
pub open spec fn keyed(entity: Entity) -> spec_fn((Entity, u64)) -> bool {
    |pair: (Entity, u64)| pair.0 == entity
}

/// The component mask recorded for an entity, if it is live.
pub open spec fn mask_of(masks: Seq<(Entity, u64)>, entity: Entity) -> Option<u64> {
    match first_where(masks, keyed(entity)) {
        Some(i) => Some(masks[i].1),
        None => None,
    }
}

/// Looks up an entity's component mask.
pub fn lookup_mask(masks: &Masks, entity: Entity) -> (r: Option<u64>)
    ensures
        r == mask_of(masks@, entity),
{
    proof {
        lemma_first_where(masks@, keyed(entity));
    }
    let mut i: usize = 0;
    while i < masks.len()
        invariant
            i <= masks@.len(),
            forall|j: int| 0 <= j < i ==> !(keyed(entity))(#[trigger] masks@[j]),
        decreases masks@.len() - i,
    {
        if masks[i].0 == entity {
            proof {
                lemma_first_where_is(masks@, keyed(entity), i as int);
            }
            return Some(masks[i].1);
        }
        i += 1;
    }
    proof {
        lemma_first_where_none(masks@, keyed(entity));
    }
    None
}

/// The entity a handle names, when that exact generation is live. A handle to
/// a reused slot does not resolve to the new occupant.
pub open spec fn spec_live(masks: Seq<(Entity, u64)>, reference: EntityRef) -> Option<Entity> {
    let entity = Entity { id: reference.id, generation: reference.generation };
    if mask_of(masks, entity) is Some {
        Some(entity)
    } else {
        None
    }
}

/// Resolves an agent handle against the live entities.
pub fn live(masks: &Masks, reference: EntityRef) -> (r: Option<Entity>)
    ensures
        r == spec_live(masks@, reference),
{
    let entity = Entity { id: reference.id, generation: reference.generation };
    match lookup_mask(masks, entity) {
        Some(_) => Some(entity),
        None => None,
    }
}

/// A serialized component value read from the world.
#[derive(Debug)]
pub struct ComponentValue {
    pub entity: Entity,
    pub component: String,
    pub value: JsonValue,
}

/// The predicate "this value is the given entity's given component".
pub open spec fn value_of(entity: Entity, name: Seq<char>) -> spec_fn(ComponentValue) -> bool {
    |v: ComponentValue| v.entity == entity && v.component@ == name
}

/// What serializing an entity's component gives: its value, or nothing when
/// the entity does not carry it.
pub open spec fn serialized(values: Seq<ComponentValue>, entity: Entity, name: Seq<char>) -> Option<JsonView> {
    match first_where(values, value_of(entity, name)) {
        Some(i) => Some(values[i].value@),
        None => None,
    }
}

/// Reads a serialized component value.
pub fn lookup_value(values: &Vec<ComponentValue>, entity: Entity, name: &String) -> (r: Option<JsonValue>)
    ensures
        match serialized(values@, entity, name@) {
            Some(v) => r is Some && r->Some_0@ == v,
            None => r is None,
        },
{
    proof {
        lemma_first_where(values@, value_of(entity, name@));
    }
    let mut i: usize = 0;
    while i < values.len()
        invariant
            i <= values@.len(),
            forall|j: int| 0 <= j < i ==> !(value_of(entity, name@))(#[trigger] values@[j]),
        decreases values@.len() - i,
    {
        if values[i].entity == entity && values[i].component == *name {
            proof {
                lemma_first_where_is(values@, value_of(entity, name@), i as int);
            }
            return Some(values[i].value.duplicate());
        }
        i += 1;
    }
    proof {
        lemma_first_where_none(values@, value_of(entity, name@));
    }
    None
}

/// The watched components a freshly spawned entity carries, with their values.
pub open spec fn spawn_components(
    values: Seq<ComponentValue>,
    watched: Seq<EntryView>,
    entity: Entity,
    mask: u64,
) -> Seq<(Seq<char>, JsonView)>
    decreases watched.len(),
{
    if watched.len() == 0 {
        seq![]
    } else {
        let before = spawn_components(values, watched.drop_last(), entity, mask);
        let t = watched.last();
        if (mask & t.mask) != 0 && serialized(values, entity, t.name) is Some {
            before.push((t.name, serialized(values, entity, t.name)->Some_0))
        } else {
            before
        }
    }
}

/// `Spawned` for every entity present now and absent from the shadow, in the
/// order of the current masks.
pub open spec fn spawned_part(
    values: Seq<ComponentValue>,
    shadow: Seq<(Entity, u64)>,
    watched: Seq<EntryView>,
    current: Seq<(Entity, u64)>,
) -> Seq<DeltaView>
    decreases current.len(),
{
    if current.len() == 0 {
        seq![]
    } else {
        let before = spawned_part(values, shadow, watched, current.drop_last());
        let (entity, mask) = current.last();
        if mask_of(shadow, entity) is None {
            before.push(
                DeltaView::Spawned {
                    entity: spec_to_ref(entity),
                    components: spawn_components(values, watched, entity, mask),
                    origin: None,
                },
            )
        } else {
            before
        }
    }
}

/// `Added` for each watched component an entity gained, when it has a value.
pub open spec fn added_for(
    values: Seq<ComponentValue>,
    watched: Seq<EntryView>,
    entity: Entity,
    added: u64,
) -> Seq<DeltaView>
    decreases watched.len(),
{
    if watched.len() == 0 {
        seq![]
    } else {
        let before = added_for(values, watched.drop_last(), entity, added);
        let t = watched.last();
        if (added & t.mask) != 0 && serialized(values, entity, t.name) is Some {
            before.push(
                DeltaView::Added {
                    entity: spec_to_ref(entity),
                    component: t.name,
                    value: serialized(values, entity, t.name)->Some_0,
                    origin: None,
                },
            )
        } else {
            before
        }
    }
}

/// `Removed` for each watched component an entity lost.
pub open spec fn removed_for(watched: Seq<EntryView>, entity: Entity, removed: u64) -> Seq<DeltaView>
    decreases watched.len(),
{
    if watched.len() == 0 {
        seq![]
    } else {
        let before = removed_for(watched.drop_last(), entity, removed);
        let t = watched.last();
        if (removed & t.mask) != 0 {
            before.push(
                DeltaView::Removed { entity: spec_to_ref(entity), component: t.name, origin: None },
            )
        } else {
            before
        }
    }
}

/// The `Added` deltas of every entity present in both the shadow and now.
pub open spec fn added_part(
    values: Seq<ComponentValue>,
    shadow: Seq<(Entity, u64)>,
    watched: Seq<EntryView>,
    current: Seq<(Entity, u64)>,
) -> Seq<DeltaView>
    decreases current.len(),
{
    if current.len() == 0 {
        seq![]
    } else {
        let before = added_part(values, shadow, watched, current.drop_last());
        let (entity, mask) = current.last();
        match mask_of(shadow, entity) {
            Some(old) => before + added_for(values, watched, entity, mask & !old),
            None => before,
        }
    }
}

/// The `Removed` deltas of every entity present in both the shadow and now.
pub open spec fn removed_part(
    shadow: Seq<(Entity, u64)>,
    watched: Seq<EntryView>,
    current: Seq<(Entity, u64)>,
) -> Seq<DeltaView>
    decreases current.len(),
{
    if current.len() == 0 {
        seq![]
    } else {
        let before = removed_part(shadow, watched, current.drop_last());
        let (entity, mask) = current.last();
        match mask_of(shadow, entity) {
            Some(old) => before + removed_for(watched, entity, old & !mask),
            None => before,
        }
    }
}

/// Whether a change-detection hit becomes a `Changed` delta: the entity is
/// live, was live in the shadow (so it is not freshly spawned), and did not
/// just gain the component (that is reported as `Added`).
pub open spec fn reports_change(
    shadow: Seq<(Entity, u64)>,
    current: Seq<(Entity, u64)>,
    component_mask: u64,
    entity: Entity,
) -> bool {
    &&& mask_of(current, entity) is Some
    &&& mask_of(shadow, entity) is Some
    &&& ((mask_of(current, entity)->Some_0 & !mask_of(shadow, entity)->Some_0) & component_mask) == 0
}

/// The `Changed` deltas for one watched component's change-detection hits.
pub open spec fn changed_for(
    shadow: Seq<(Entity, u64)>,
    current: Seq<(Entity, u64)>,
    t: EntryView,
    hits: Seq<(Entity, JsonView)>,
) -> Seq<DeltaView>
    decreases hits.len(),
{
    if hits.len() == 0 {
        seq![]
    } else {
        let before = changed_for(shadow, current, t, hits.drop_last());
        let (entity, value) = hits.last();
        if reports_change(shadow, current, t.mask, entity) {
            before.push(
                DeltaView::Changed {
                    entity: spec_to_ref(entity),
                    component: t.name,
                    value,
                    origin: None,
                },
            )
        } else {
            before
        }
    }
}

/// What change detection reported for one component this frame: each
/// changed entity with its new value, in detection order.
#[derive(Debug)]
pub struct ChangeHits {
    pub component: String,
    pub hits: Vec<(Entity, JsonValue)>,
}

/// The model of a list of change-detection hits.
pub open spec fn hit_list_view(hits: Seq<(Entity, JsonValue)>) -> Seq<(Entity, JsonView)> {
    Seq::new(hits.len(), |j: int| (hits[j].0, hits[j].1@))
}

/// The predicate "these hits are for the given component".
pub open spec fn hits_of(name: Seq<char>) -> spec_fn(ChangeHits) -> bool {
    |c: ChangeHits| c.component@ == name
}

/// The change-detection hits reported for a component (none when nothing
/// was reported for it).
pub open spec fn hits_for(changes: Seq<ChangeHits>, name: Seq<char>) -> Seq<(Entity, JsonView)> {
    match first_where(changes, hits_of(name)) {
        Some(i) => hit_list_view(changes[i].hits@),
        None => seq![],
    }
}

/// The `Changed` deltas of every watched component, component by component.
pub open spec fn changed_part(
    shadow: Seq<(Entity, u64)>,
    current: Seq<(Entity, u64)>,
    watched: Seq<EntryView>,
    changes: Seq<ChangeHits>,
) -> Seq<DeltaView>
    decreases watched.len(),
{
    if watched.len() == 0 {
        seq![]
    } else {
        changed_part(shadow, current, watched.drop_last(), changes) + changed_for(
            shadow,
            current,
            watched.last(),
            hits_for(changes, watched.last().name),
        )
    }
}

/// `Despawned` for every entity of the shadow that is gone, in shadow order.
pub open spec fn despawned_part(shadow: Seq<(Entity, u64)>, current: Seq<(Entity, u64)>) -> Seq<DeltaView>
    decreases shadow.len(),
{
    if shadow.len() == 0 {
        seq![]
    } else {
        let before = despawned_part(shadow.drop_last(), current);
        let entity = shadow.last().0;
        if mask_of(current, entity) is None {
            before.push(DeltaView::Despawned { entity: spec_to_ref(entity), origin: None })
        } else {
            before
        }
    }
}

/// One frame's deltas: creates (spawns, then added components), then value
/// changes, then deletes (removed components, then despawns). Never
/// coalesced, never tagged with an origin.
pub open spec fn spec_compute_deltas(
    values: Seq<ComponentValue>,
    changes: Seq<ChangeHits>,
    shadow: Seq<(Entity, u64)>,
    current: Seq<(Entity, u64)>,
    watched: Seq<EntryView>,
) -> Seq<DeltaView> {
    spawned_part(values, shadow, watched, current) + added_part(values, shadow, watched, current)
        + changed_part(shadow, current, watched, changes) + removed_part(shadow, watched, current)
        + despawned_part(shadow, current)
}

/// Finds the change-detection hits reported for a component.
fn lookup_hits<'a>(changes: &'a Vec<ChangeHits>, name: &String) -> (r: Option<&'a Vec<(Entity, JsonValue)>>)
    ensures
        match first_where(changes@, hits_of(name@)) {
            Some(i) => r is Some && r->Some_0 == &changes@[i].hits,
            None => r is None,
        },
{
    proof {
        lemma_first_where(changes@, hits_of(name@));
    }
    let mut i: usize = 0;
    while i < changes.len()
        invariant
            i <= changes@.len(),
            forall|j: int| 0 <= j < i ==> !(hits_of(name@))(#[trigger] changes@[j]),
        decreases changes@.len() - i,
    {
        if changes[i].component == *name {
            proof {
                lemma_first_where_is(changes@, hits_of(name@), i as int);
            }
            return Some(&changes[i].hits);
        }
        i += 1;
    }
    proof {
        lemma_first_where_none(changes@, hits_of(name@));
    }
    None
}

/// Lists the watched components a spawned entity carries, with their values.
fn collect_spawn_components(
    values: &Vec<ComponentValue>,
    watched: &Vec<ComponentEntry>,
    entity: Entity,
    mask: u64,
) -> (r: Vec<(String, JsonValue)>)
    ensures
        pairs_view(r@) == spawn_components(values@, entries_view(watched@), entity, mask),
{
    let ghost tv = entries_view(watched@);
    let mut r: Vec<(String, JsonValue)> = Vec::new();
    let mut j: usize = 0;
    while j < watched.len()
        invariant
            j <= watched@.len(),
            tv == entries_view(watched@),
            pairs_view(r@) == spawn_components(values@, tv.take(j as int), entity, mask),
        decreases watched@.len() - j,
    {
        assert(tv.take(j + 1).drop_last() =~= tv.take(j as int));
        let t = &watched[j];
        if (mask & t.mask) != 0 {
            match lookup_value(values, entity, &t.name) {
                Some(value) => {
                    r.push((t.name.clone(), value));
                },
                None => {},
            }
        }
        assert(pairs_view(r@) =~= spawn_components(values@, tv.take(j + 1), entity, mask));
        j += 1;
    }
    assert(tv.take(watched@.len() as int) =~= tv);
    r
}

/// Computes one frame's deltas from the shadow masks of the previous frame,
/// the current masks, the watched registry entries, the serialized component
/// values and each watched component's change-detection hits.
pub fn compute_deltas(
    values: &Vec<ComponentValue>,
    changes: &Vec<ChangeHits>,
    shadow: &Masks,
    current: &Masks,
    watched: &Vec<ComponentEntry>,
) -> (r: Vec<Delta>)
    ensures
        deltas_view(r@) == spec_compute_deltas(
            values@,
            changes@,
            shadow@,
            current@,
            entries_view(watched@),
        ),
{
    let ghost tv = entries_view(watched@);

    let mut creates: Vec<Delta> = Vec::new();
    let mut i: usize = 0;
    while i < current.len()
        invariant
            i <= current@.len(),
            tv == entries_view(watched@),
            deltas_view(creates@) == spawned_part(values@, shadow@, tv, current@.take(i as int)),
        decreases current@.len() - i,
    {
        assert(current@.take(i + 1).drop_last() =~= current@.take(i as int));
        let (entity, mask) = current[i];
        if lookup_mask(shadow, entity).is_none() {
            let components = collect_spawn_components(values, watched, entity, mask);
            creates.push(Delta::Spawned { entity: to_ref(entity), components, origin: None });
        }
        assert(deltas_view(creates@) =~= spawned_part(values@, shadow@, tv, current@.take(i + 1)));
        i += 1;
    }
    assert(current@.take(current@.len() as int) =~= current@);
    let ghost spawned = deltas_view(creates@);

    let mut deletes: Vec<Delta> = Vec::new();
    let mut i: usize = 0;
    while i < current.len()
        invariant
            i <= current@.len(),
            tv == entries_view(watched@),
            deltas_view(creates@) == spawned + added_part(values@, shadow@, tv, current@.take(i as int)),
            deltas_view(deletes@) == removed_part(shadow@, tv, current@.take(i as int)),
        decreases current@.len() - i,
    {
        assert(current@.take(i + 1).drop_last() =~= current@.take(i as int));
        let (entity, mask) = current[i];
        let ghost creates_before = deltas_view(creates@);
        let ghost deletes_before = deltas_view(deletes@);
        match lookup_mask(shadow, entity) {
            Some(old) => {
                let added = mask & !old;
                let removed = old & !mask;
                let mut j: usize = 0;
                while j < watched.len()
                    invariant
                        j <= watched@.len(),
                        tv == entries_view(watched@),
                        deltas_view(creates@) == creates_before + added_for(values@, tv.take(j as int), entity, added),
                        deltas_view(deletes@) == deletes_before + removed_for(tv.take(j as int), entity, removed),
                    decreases watched@.len() - j,
                {
                    assert(tv.take(j + 1).drop_last() =~= tv.take(j as int));
                    let t = &watched[j];
                    assert(tv.take(j + 1).last() == t@);
                    let ghost c0 = deltas_view(creates@);
                    let ghost d0 = deltas_view(deletes@);
                    if (added & t.mask) != 0 {
                        match lookup_value(values, entity, &t.name) {
                            Some(value) => {
                                let d = Delta::Added {
                                    entity: to_ref(entity),
                                    component: t.name.clone(),
                                    value,
                                    origin: None,
                                };
                                creates.push(d);
                                assert(deltas_view(creates@) =~= c0.push(d@));
                            },
                            None => {},
                        }
                    }
                    if (removed & t.mask) != 0 {
                        let d = Delta::Removed {
                            entity: to_ref(entity),
                            component: t.name.clone(),
                            origin: None,
                        };
                        deletes.push(d);
                        assert(deltas_view(deletes@) =~= d0.push(d@));
                    }
                    assert(deltas_view(creates@) =~= creates_before + added_for(values@, tv.take(j + 1), entity, added));
                    assert(deltas_view(deletes@) =~= deletes_before + removed_for(tv.take(j + 1), entity, removed));
                    j += 1;
                }
                assert(tv.take(watched@.len() as int) =~= tv);
                assert(deltas_view(creates@) =~= spawned + added_part(values@, shadow@, tv, current@.take(i + 1)));
            },
            None => {},
        }
        i += 1;
    }
    let ghost added = deltas_view(creates@);
    let ghost removed = deltas_view(deletes@);

    let mut out: Vec<Delta> = Vec::new();
    let mut k: usize = 0;
    while k < watched.len()
        invariant
            k <= watched@.len(),
            tv == entries_view(watched@),
            deltas_view(out@) == changed_part(shadow@, current@, tv.take(k as int), changes@),
        decreases watched@.len() - k,
    {
        assert(tv.take(k + 1).drop_last() =~= tv.take(k as int));
        let t = &watched[k];
        assert(tv.take(k + 1).last() == t@);
        let none: Vec<(Entity, JsonValue)> = Vec::new();
        let list = match lookup_hits(changes, &t.name) {
            Some(list) => list,
            None => &none,
        };
        let ghost before = deltas_view(out@);
        let ghost hk = hit_list_view(list@);
        assert(hk =~= hits_for(changes@, t@.name));
        let mut j: usize = 0;
        while j < list.len()
            invariant
                j <= list@.len(),
                hk == hit_list_view(list@),
                deltas_view(out@) == before + changed_for(shadow@, current@, t@, hk.take(j as int)),
            decreases list@.len() - j,
        {
            assert(hk.take(j + 1).drop_last() =~= hk.take(j as int));
            let entity = list[j].0;
            assert(hk.take(j + 1).last() == (list@[j as int].0, list@[j as int].1@));
            let ghost c0 = deltas_view(out@);
            let reports = match (lookup_mask(current, entity), lookup_mask(shadow, entity)) {
                (Some(now), Some(old)) => ((now & !old) & t.mask) == 0,
                _ => false,
            };
            if reports {
                let d = Delta::Changed {
                    entity: to_ref(entity),
                    component: t.name.clone(),
                    value: list[j].1.duplicate(),
                    origin: None,
                };
                out.push(d);
                assert(deltas_view(out@) =~= c0.push(d@));
            }
            assert(deltas_view(out@) =~= before + changed_for(shadow@, current@, t@, hk.take(j + 1)));
            j += 1;
        }
        assert(hk.take(list@.len() as int) =~= hk);
        assert(deltas_view(out@) =~= changed_part(shadow@, current@, tv.take(k + 1), changes@));
        k += 1;
    }
    assert(tv.take(watched@.len() as int) =~= tv);

    let mut i: usize = 0;
    while i < shadow.len()
        invariant
            i <= shadow@.len(),
            deltas_view(deletes@) == removed + despawned_part(shadow@.take(i as int), current@),
        decreases shadow@.len() - i,
    {
        assert(shadow@.take(i + 1).drop_last() =~= shadow@.take(i as int));
        let entity = shadow[i].0;
        let ghost before = deltas_view(deletes@);
        assert(shadow@.take(i + 1).last() == shadow@[i as int]);
        if lookup_mask(current, entity).is_none() {
            let d = Delta::Despawned { entity: to_ref(entity), origin: None };
            assert(d@ == DeltaView::Despawned { entity: spec_to_ref(entity), origin: None });
            deletes.push(d);
            assert(deltas_view(deletes@) =~= before.push(d@));
        } else {
            assert(deltas_view(deletes@) =~= before);
        }
        assert(deltas_view(deletes@) =~= removed + despawned_part(shadow@.take(i + 1), current@));
        i += 1;
    }
    assert(shadow@.take(shadow@.len() as int) =~= shadow@);
    let ghost changed = deltas_view(out@);
    let ghost deleted = deltas_view(deletes@);
    creates.append(&mut out);
    creates.append(&mut deletes);
    assert(deltas_view(creates@) =~= added + changed + deleted);
    creates
}


/// The entities a snapshot considers: the live ones among the listed handles,
/// in list order, or every entity when the filter lists none.
pub open spec fn candidates(masks: Seq<(Entity, u64)>, entities: Option<Seq<EntityRef>>) -> Seq<Entity>
    decreases (match entities { Some(refs) => refs.len(), None => 0 }),
{
    match entities {
        None => Seq::new(masks.len(), |i: int| masks[i].0),
        Some(refs) => if refs.len() == 0 {
            seq![]
        } else {
            let before = candidates(masks, Some(refs.drop_last()));
            match spec_live(masks, refs.last()) {
                Some(e) => before.push(e),
                None => before,
            }
        },
    }
}

/// One snapshot row per candidate that carries at least one of the filtered
/// components, with those components' values.
pub open spec fn snapshot_rows(
    values: Seq<ComponentValue>,
    masks: Seq<(Entity, u64)>,
    watched: Seq<EntryView>,
    cands: Seq<Entity>,
) -> Seq<(EntityRef, Seq<(Seq<char>, JsonView)>)>
    decreases cands.len(),
{
    if cands.len() == 0 {
        seq![]
    } else {
        let before = snapshot_rows(values, masks, watched, cands.drop_last());
        let e = cands.last();
        let mask = match mask_of(masks, e) {
            Some(m) => m,
            None => 0,
        };
        let comps = spawn_components(values, watched, e, mask);
        if comps.len() > 0 {
            before.push((spec_to_ref(e), comps))
        } else {
            before
        }
    }
}

/// The handles a filter lists, if it lists any.
pub open spec fn filter_entities(filter: SubscriptionFilter) -> Option<Seq<EntityRef>> {
    match filter.entities {
        Some(v) => Some(v@),
        None => None,
    }
}

/// The rows of a snapshot of the slice a filter covers.
pub open spec fn spec_snapshot_rows(
    values: Seq<ComponentValue>,
    masks: Seq<(Entity, u64)>,
    filter: SubscriptionFilter,
    reg: Seq<EntryView>,
) -> Seq<(EntityRef, Seq<(Seq<char>, JsonView)>)> {
    snapshot_rows(
        values,
        masks,
        spec_filter_entries(names_view(filter.component_types@), reg),
        candidates(masks, filter_entities(filter)),
    )
}

fn collect_candidates(masks: &Masks, filter: &SubscriptionFilter) -> (r: Vec<Entity>)
    ensures
        r@ == candidates(masks@, filter_entities(*filter)),
{
    match &filter.entities {
        None => {
            let mut r: Vec<Entity> = Vec::new();
            let mut i: usize = 0;
            while i < masks.len()
                invariant
                    i <= masks@.len(),
                    r@ =~= Seq::new(i as nat, |k: int| masks@[k].0),
                decreases masks@.len() - i,
            {
                r.push(masks[i].0);
                i += 1;
            }
            assert(r@ =~= candidates(masks@, filter_entities(*filter)));
            r
        },
        Some(refs) => {
            let mut r: Vec<Entity> = Vec::new();
            let mut i: usize = 0;
            while i < refs.len()
                invariant
                    i <= refs@.len(),
                    filter_entities(*filter) == Some(refs@),
                    r@ == candidates(masks@, Some(refs@.take(i as int))),
                decreases refs@.len() - i,
            {
                assert(refs@.take(i + 1).drop_last() =~= refs@.take(i as int));
                match live(masks, refs[i]) {
                    Some(e) => r.push(e),
                    None => {},
                }
                i += 1;
            }
            assert(refs@.take(refs@.len() as int) =~= refs@);
            r
        },
    }
}

/// Builds a snapshot of the slice a filter covers, stamped with a version.
pub fn build_snapshot(
    values: &Vec<ComponentValue>,
    masks: &Masks,
    filter: &SubscriptionFilter,
    registry: &Vec<ComponentEntry>,
    version: Version,
) -> (r: Snapshot)
    ensures
        r.version == version,
        snapshot_entities_view(r.entities@) == spec_snapshot_rows(values@, masks@, *filter, entries_view(registry@)),
{
    let watched = filter_entries(filter, registry);
    let cands = collect_candidates(masks, filter);
    let ghost wv = entries_view(watched@);
    let mut rows: Vec<SnapshotEntity> = Vec::new();
    let mut i: usize = 0;
    while i < cands.len()
        invariant
            i <= cands@.len(),
            wv == entries_view(watched@),
            snapshot_entities_view(rows@) == snapshot_rows(values@, masks@, wv, cands@.take(i as int)),
        decreases cands@.len() - i,
    {
        assert(cands@.take(i + 1).drop_last() =~= cands@.take(i as int));
        let e = cands[i];
        let mask = match lookup_mask(masks, e) {
            Some(m) => m,
            None => 0,
        };
        let components = collect_spawn_components(values, &watched, e, mask);
        let ghost before = snapshot_entities_view(rows@);
        if components.len() > 0 {
            let row = SnapshotEntity { entity: to_ref(e), components };
            rows.push(row);
            assert(snapshot_entities_view(rows@) =~= before.push((spec_to_ref(e), pairs_view(row.components@))));
        } else {
            assert(snapshot_entities_view(rows@) =~= before);
        }
        i += 1;
    }
    assert(cands@.take(cands@.len() as int) =~= cands@);
    Snapshot { version, entities: rows }
}

/// The handles of every entity carrying all the bits of a mask, in entity order.
pub open spec fn query_rows(masks: Seq<(Entity, u64)>, mask: u64) -> Seq<EntityRef>
    decreases masks.len(),
{
    if masks.len() == 0 {
        seq![]
    } else {
        let before = query_rows(masks.drop_last(), mask);
        if (masks.last().1 & mask) == mask {
            before.push(spec_to_ref(masks.last().0))
        } else {
            before
        }
    }
}

/// Whether the registry knows every one of the names.
pub open spec fn all_known(reg: Seq<EntryView>, names: Seq<Seq<char>>) -> bool {
    forall|i: int| 0 <= i < names.len() ==> spec_find(reg, #[trigger] names[i]) is Some
}

/// Checks that the registry knows every one of the names.
fn known_names(registry: &Vec<ComponentEntry>, component_types: &Vec<String>) -> (r: bool)
    ensures
        r == all_known(entries_view(registry@), names_view(component_types@)),
{
    let ghost reg = entries_view(registry@);
    let ghost all = names_view(component_types@);
    let mut i: usize = 0;
    while i < component_types.len()
        invariant
            i <= component_types@.len(),
            reg == entries_view(registry@),
            all == names_view(component_types@),
            forall|k: int| 0 <= k < i ==> spec_find(reg, #[trigger] all[k]) is Some,
        decreases component_types@.len() - i,
    {
        match find(registry, &component_types[i]) {
            Ok(_) => {},
            Err(_) => {
                assert(spec_find(reg, all[i as int]) is None);
                return false;
            },
        }
        i += 1;
    }
    true
}

/// Answers a query: the handles of the live entities that carry every named
/// component. No entity carries a component the registry does not know, so
/// a query naming one answers nothing.
pub fn query(masks: &Masks, registry: &Vec<ComponentEntry>, component_types: &Vec<String>) -> (r: Vec<EntityRef>)
    ensures
        !all_known(entries_view(registry@), names_view(component_types@)) ==> r@.len() == 0,
        all_known(entries_view(registry@), names_view(component_types@)) ==> r@ == query_rows(
            masks@,
            spec_mask_for(entries_view(registry@), names_view(component_types@)),
        ),
{
    if !known_names(registry, component_types) {
        return Vec::new();
    }
    let mask = mask_for(registry, component_types);
    let mut r: Vec<EntityRef> = Vec::new();
    let mut i: usize = 0;
    while i < masks.len()
        invariant
            i <= masks@.len(),
            r@ == query_rows(masks@.take(i as int), mask),
        decreases masks@.len() - i,
    {
        assert(masks@.take(i + 1).drop_last() =~= masks@.take(i as int));
        if (masks[i].1 & mask) == mask {
            r.push(to_ref(masks[i].0));
        }
        i += 1;
    }
    assert(masks@.take(masks@.len() as int) =~= masks@);
    r
}

/// The requested components of a live entity that the registry knows and
/// the entity carries, in request order.
pub open spec fn requested_components(
    values: Seq<ComponentValue>,
    reg: Seq<EntryView>,
    entity: Entity,
    names: Seq<Seq<char>>,
) -> Seq<(Seq<char>, JsonView)>
    decreases names.len(),
{
    if names.len() == 0 {
        seq![]
    } else {
        let before = requested_components(values, reg, entity, names.drop_last());
        let name = names.last();
        if spec_find(reg, name) is Some && serialized(values, entity, name) is Some {
            before.push((name, serialized(values, entity, name)->Some_0))
        } else {
            before
        }
    }
}

/// Reads components of one entity. A stale handle reads as not live, never as
/// the slot's new occupant.
pub fn get_components(
    values: &Vec<ComponentValue>,
    masks: &Masks,
    registry: &Vec<ComponentEntry>,
    entity: EntityRef,
    component_types: &Vec<String>,
) -> (r: GetResult)
    ensures
        match spec_live(masks@, entity) {
            None => r == (GetResult::NotLive { entity }),
            Some(e) => match r {
                GetResult::Live { entity: reported, components } => reported == entity && pairs_view(components@)
                    == requested_components(values@, entries_view(registry@), e, names_view(component_types@)),
                GetResult::NotLive { .. } => false,
            },
        },
{
    let handle = match live(masks, entity) {
        Some(handle) => handle,
        None => return GetResult::NotLive { entity },
    };
    let ghost names = names_view(component_types@);
    let ghost reg = entries_view(registry@);
    let mut components: Vec<(String, JsonValue)> = Vec::new();
    let mut i: usize = 0;
    while i < component_types.len()
        invariant
            i <= component_types@.len(),
            names == names_view(component_types@),
            reg == entries_view(registry@),
            pairs_view(components@) == requested_components(values@, reg, handle, names.take(i as int)),
        decreases component_types@.len() - i,
    {
        assert(names.take(i + 1).drop_last() =~= names.take(i as int));
        assert(names.take(i + 1).last() == component_types@[i as int]@);
        let name = &component_types[i];
        let ghost before = pairs_view(components@);
        if find(registry, name).is_ok() {
            match lookup_value(values, handle, name) {
                Some(value) => {
                    components.push((name.clone(), value));
                    assert(pairs_view(components@) =~= before.push((name@, serialized(values@, handle, name@)->Some_0)));
                },
                None => {},
            }
        }
        assert(pairs_view(components@) =~= requested_components(values@, reg, handle, names.take(i + 1)));
        i += 1;
    }
    assert(names.take(component_types@.len() as int) =~= names);
    GetResult::Live { entity, components }
}


/// What the worker reads from the world at the end of a frame: every live
/// entity's component mask, the serialized values of the registry's
/// components, and what change detection reported per component.
#[derive(Debug)]
pub struct FrameSample {
    pub masks: Masks,
    pub values: Vec<ComponentValue>,
    pub changes: Vec<ChangeHits>,
}

/// The versions a collection's batch spans, from the state's version: one
/// step on, which is also the state's version afterwards.
pub open spec fn collected_versions(version: Version) -> (Version, Version) {
    (version, (version + 1) as Version)
}

/// The worker's agent state between frames.
#[derive(Debug)]
pub struct AgentState {
    /// Subscribe requests waiting for the next collection.
    pub pending_subscribes: Vec<(CorrelationId, SubscriptionFilter)>,
    /// Live subscriptions.
    pub subscriptions: HashMap<SubscriptionId, SubscriptionFilter>,
    /// The id the next subscription gets.
    pub next_subscription_id: SubscriptionId,
    /// The version of the last emitted batch.
    pub version: Version,
    /// Every entity's component mask as of the last emitted batch.
    pub shadow: Masks,
    /// Whether `shadow` holds a frame yet.
    pub baseline_set: bool,
    /// Commands applied this frame, acknowledged at collection.
    pub applied_this_frame: Vec<CorrelationId>,
}

impl AgentState {
    /// Every subscription id is below the next one to hand out.
    pub open spec fn well_formed(&self) -> bool {
        forall|id: SubscriptionId| #[trigger] self.subscriptions@.contains_key(id) ==> id < self.next_subscription_id
    }

    /// Whether a collection emits a batch: some subscription is live or waiting.
    pub open spec fn tracking(&self) -> bool {
        self.subscriptions@.len() > 0 || self.pending_subscribes@.len() > 0
    }

    /// A fresh state: no subscriptions, version zero, ids from one.
    pub fn new() -> (r: AgentState)
        ensures
            r.well_formed(),
            r.pending_subscribes@.len() == 0,
            r.subscriptions@ == Map::<SubscriptionId, SubscriptionFilter>::empty(),
            r.next_subscription_id == 1,
            r.version == 0,
            r.shadow@.len() == 0,
            !r.baseline_set,
            r.applied_this_frame@.len() == 0,
    {
        AgentState {
            pending_subscribes: Vec::new(),
            subscriptions: HashMap::new(),
            next_subscription_id: 1,
            version: 0,
            shadow: Vec::new(),
            baseline_set: false,
            applied_this_frame: Vec::new(),
        }
    }

    /// Queues a subscription; it is answered at the next collection, with a
    /// snapshot at the version that collection assigns.
    pub fn subscribe(&mut self, correlation_id: CorrelationId, filter: SubscriptionFilter)
        ensures
            final(self).pending_subscribes@ == old(self).pending_subscribes@.push((correlation_id, filter)),
            final(self).subscriptions@ == old(self).subscriptions@,
            final(self).next_subscription_id == old(self).next_subscription_id,
            final(self).version == old(self).version,
            final(self).shadow@ == old(self).shadow@,
            final(self).baseline_set == old(self).baseline_set,
            final(self).applied_this_frame@ == old(self).applied_this_frame@,
    {
        self.pending_subscribes.push((correlation_id, filter));
    }

    /// Records a command that landed this frame; it is acknowledged at the next
    /// collection.
    pub fn record_applied(&mut self, correlation_id: CorrelationId)
        ensures
            final(self).applied_this_frame@ == old(self).applied_this_frame@.push(correlation_id),
            final(self).pending_subscribes@ == old(self).pending_subscribes@,
            final(self).subscriptions@ == old(self).subscriptions@,
            final(self).next_subscription_id == old(self).next_subscription_id,
            final(self).version == old(self).version,
            final(self).shadow@ == old(self).shadow@,
            final(self).baseline_set == old(self).baseline_set,
    {
        self.applied_this_frame.push(correlation_id);
    }

    /// Tears down a subscription and answers the request.
    pub fn unsubscribe(&mut self, correlation_id: CorrelationId, subscription_id: SubscriptionId) -> (r: AgentResponse)
        requires
            old(self).well_formed(),
        ensures
            final(self).well_formed(),
            r == (AgentResponse::Unsubscribed { correlation_id, subscription_id }),
            final(self).subscriptions@ == old(self).subscriptions@.remove(subscription_id),
            final(self).pending_subscribes@ == old(self).pending_subscribes@,
            final(self).next_subscription_id == old(self).next_subscription_id,
            final(self).version == old(self).version,
            final(self).shadow@ == old(self).shadow@,
            final(self).baseline_set == old(self).baseline_set,
            final(self).applied_this_frame@ == old(self).applied_this_frame@,
    {
        self.subscriptions.remove(&subscription_id);
        AgentResponse::Unsubscribed { correlation_id, subscription_id }
    }
}

/// The acknowledgements of the commands applied this frame, at a version.
pub open spec fn acks(applied: Seq<CorrelationId>, version: Version) -> Seq<AgentResponse> {
    Seq::new(applied.len(), |k: int| AgentResponse::CommandApplied { correlation_id: applied[k], version })
}

/// The subscriptions a collection adds: each waiting one, with consecutive
/// fresh ids starting at the next id.
pub open spec fn added_subscriptions(
    pending: Seq<(CorrelationId, SubscriptionFilter)>,
    next: SubscriptionId,
) -> Map<SubscriptionId, SubscriptionFilter> {
    Map::new(|id: SubscriptionId| next <= id < next + pending.len(), |id: SubscriptionId| pending[id - next].1)
}

/// The deltas a collection emits: none on the first tracked frame (there is
/// no baseline to compare with), else those of the frame against the shadow,
/// over the components the subscriptions cover.
pub open spec fn collected_deltas(
    baseline_set: bool,
    frame: FrameSample,
    shadow: Seq<(Entity, u64)>,
    subscriptions: Map<SubscriptionId, SubscriptionFilter>,
    reg: Seq<EntryView>,
) -> Seq<DeltaView> {
    if baseline_set {
        spec_compute_deltas(
            frame.values@,
            frame.changes@,
            shadow,
            frame.masks@,
            reg.filter(|e: EntryView| covered(subscriptions, e.name)),
        )
    } else {
        seq![]
    }
}

impl AgentState {
    /// The end-of-frame collection. While some subscription is live or
    /// waiting, it assigns the next version, answers each waiting subscription
    /// with a snapshot at that version, emits exactly one batch from the
    /// previous version to the new one (empty frames included), records the
    /// frame as the new shadow, and acknowledges the commands applied this
    /// frame at the new version. Otherwise it only acknowledges them, at the
    /// current version.
    pub fn collect(&mut self, frame: &FrameSample, registry: &Vec<ComponentEntry>) -> (r: Vec<AgentResponse>)
        requires
            old(self).well_formed(),
            old(self).version < u64::MAX,
            old(self).next_subscription_id + old(self).pending_subscribes@.len() <= u64::MAX,
        ensures
            final(self).well_formed(),
            final(self).pending_subscribes@.len() == 0,
            final(self).applied_this_frame@.len() == 0,
            !old(self).tracking() ==> {
                &&& r@ == acks(old(self).applied_this_frame@, old(self).version)
                &&& final(self).version == old(self).version
                &&& final(self).subscriptions@ == old(self).subscriptions@
                &&& final(self).next_subscription_id == old(self).next_subscription_id
                &&& final(self).shadow@ == old(self).shadow@
                &&& final(self).baseline_set == old(self).baseline_set
            },
            old(self).tracking() ==> {
                let p = old(self).pending_subscribes@.len();
                let v = (old(self).version + 1) as Version;
                &&& final(self).version == v
                &&& final(self).next_subscription_id == old(self).next_subscription_id + p
                &&& final(self).subscriptions@ == old(self).subscriptions@.union_prefer_right(
                    added_subscriptions(old(self).pending_subscribes@, old(self).next_subscription_id),
                )
                &&& final(self).shadow@ == frame.masks@
                &&& final(self).baseline_set
                &&& r@.len() == p + 1 + old(self).applied_this_frame@.len()
                &&& forall|k: int| 0 <= k < p ==> match #[trigger] r@[k] {
                    AgentResponse::Subscribed { correlation_id, subscription_id, snapshot } => {
                        &&& correlation_id == old(self).pending_subscribes@[k].0
                        &&& subscription_id == old(self).next_subscription_id + k
                        &&& snapshot.version == v
                        &&& snapshot_entities_view(snapshot.entities@) == spec_snapshot_rows(
                            frame.values@,
                            frame.masks@,
                            old(self).pending_subscribes@[k].1,
                            entries_view(registry@),
                        )
                    },
                    _ => false,
                }
                &&& match r@[p as int] {
                    AgentResponse::Batch { batch } => {
                        &&& batch.base_version == old(self).version
                        &&& batch.target_version == v
                        &&& (batch.base_version, batch.target_version) == collected_versions(old(self).version)
                        &&& batch.checksum is None
                        &&& deltas_view(batch.deltas@) == collected_deltas(
                            old(self).baseline_set,
                            *frame,
                            old(self).shadow@,
                            final(self).subscriptions@,
                            entries_view(registry@),
                        )
                    },
                    _ => false,
                }
                &&& r@.subrange(p + 1int, r@.len() as int) == acks(old(self).applied_this_frame@, v)
            },
    {
        let mut pending: Vec<(CorrelationId, SubscriptionFilter)> = Vec::new();
        std::mem::swap(&mut pending, &mut self.pending_subscribes);
        let mut applied: Vec<CorrelationId> = Vec::new();
        std::mem::swap(&mut applied, &mut self.applied_this_frame);
        let ghost pending0 = pending@;
        let _count = pending.len();
        let ghost subs0 = self.subscriptions@;
        let ghost next0 = self.next_subscription_id;

        let mut r: Vec<AgentResponse> = Vec::new();
        if self.subscriptions.len() == 0 && pending.len() == 0 {
            let mut k: usize = 0;
            while k < applied.len()
                invariant
                    k <= applied@.len(),
                    self.version == old(self).version,
                    applied@ == old(self).applied_this_frame@,
                    r@ =~= acks(applied@, self.version).take(k as int),
                decreases applied@.len() - k,
            {
                r.push(AgentResponse::CommandApplied { correlation_id: applied[k], version: self.version });
                k += 1;
            }
            assert(r@ =~= acks(applied@, self.version));
            return r;
        }

        let new_version = self.version + 1;
        let mut k: usize = 0;
        let mut rest = pending;
        while rest.len() > 0
            invariant
                0 <= k <= pending0.len(),
                k + rest@.len() == pending0.len(),
                pending0.len() <= usize::MAX,
                self.pending_subscribes@.len() == 0,
                self.applied_this_frame@.len() == 0,
                self.version == old(self).version,
                self.version < u64::MAX,
                new_version == self.version + 1,
                self.shadow@ == old(self).shadow@,
                self.baseline_set == old(self).baseline_set,
                rest@ == pending0.subrange(k as int, pending0.len() as int),
                self.next_subscription_id == next0 + k,
                next0 + pending0.len() <= u64::MAX,
                self.subscriptions@ == subs0.union_prefer_right(added_subscriptions(pending0.take(k as int), next0)),
                forall|id: SubscriptionId| #[trigger] self.subscriptions@.contains_key(id) ==> id < self.next_subscription_id,
                r@.len() == k,
                forall|i: int| 0 <= i < k ==> match #[trigger] r@[i] {
                    AgentResponse::Subscribed { correlation_id, subscription_id, snapshot } => {
                        &&& correlation_id == pending0[i].0
                        &&& subscription_id == next0 + i
                        &&& snapshot.version == new_version
                        &&& snapshot_entities_view(snapshot.entities@) == spec_snapshot_rows(
                            frame.values@,
                            frame.masks@,
                            pending0[i].1,
                            entries_view(registry@),
                        )
                    },
                    _ => false,
                },
            decreases rest@.len(),
        {
            let (correlation_id, filter) = rest.remove(0);
            assert((correlation_id, filter) == pending0[k as int]);
            let subscription_id = self.next_subscription_id;
            self.next_subscription_id = self.next_subscription_id + 1;
            let snapshot = build_snapshot(&frame.values, &frame.masks, &filter, registry, new_version);
            self.subscriptions.insert(subscription_id, filter);
            r.push(AgentResponse::Subscribed { correlation_id, subscription_id, snapshot });
            assert(added_subscriptions(pending0.take(k + 1), next0) =~= added_subscriptions(pending0.take(k as int), next0).insert(subscription_id, filter));
            assert(self.subscriptions@ =~= subs0.union_prefer_right(added_subscriptions(pending0.take(k + 1), next0)));
            assert(rest@ =~= pending0.subrange(k + 1, pending0.len() as int));
            k += 1;
        }
        assert(pending0.take(pending0.len() as int) =~= pending0);

        let watched = tracked_entries(&self.subscriptions, registry);
        let deltas = if self.baseline_set {
            compute_deltas(&frame.values, &frame.changes, &self.shadow, &frame.masks, &watched)
        } else {
            Vec::new()
        };
        let ghost p = pending0.len();
        r.push(
            AgentResponse::Batch {
                batch: DeltaBatch {
                    base_version: self.version,
                    target_version: new_version,
                    deltas,
                    checksum: None,
                },
            },
        );
        assert(deltas_view(deltas@) == collected_deltas(self.baseline_set, *frame, self.shadow@, self.subscriptions@, entries_view(registry@))) by {
            if !self.baseline_set {
                assert(deltas_view(deltas@) =~= Seq::<DeltaView>::empty());
            }
        }

        let mut shadow = clone_masks(&frame.masks);
        std::mem::swap(&mut shadow, &mut self.shadow);
        self.baseline_set = true;
        self.version = new_version;

        let ghost before_acks = r@;
        let mut k: usize = 0;
        while k < applied.len()
            invariant
                k <= applied@.len(),
                applied@ == old(self).applied_this_frame@,
                r@ =~= before_acks + acks(applied@, new_version).take(k as int),
            decreases applied@.len() - k,
        {
            r.push(AgentResponse::CommandApplied { correlation_id: applied[k], version: new_version });
            k += 1;
        }
        assert(acks(applied@, new_version).take(applied@.len() as int) =~= acks(applied@, new_version));
        assert(r@.subrange(p + 1int, r@.len() as int) =~= acks(applied@, new_version));
        assert(r@[p as int] == before_acks[p as int]);
        assert forall|k: int| 0 <= k < p implies #[trigger] r@[k] == before_acks[k] by {}
        r
    }
}

/// A copy of a mask table.
pub fn clone_masks(masks: &Masks) -> (r: Masks)
    ensures
        r@ == masks@,
{
    let mut r: Masks = Vec::new();
    let mut i: usize = 0;
    while i < masks.len()
        invariant
            i <= masks@.len(),
            r@ =~= masks@.take(i as int),
        decreases masks@.len() - i,
    {
        r.push(masks[i]);
        i += 1;
    }
    assert(masks@.take(masks@.len() as int) =~= masks@);
    r
}

/// The engine's mask bits a spawn with a local transform also needs.
#[derive(Clone, Copy, Debug)]
pub struct TransformMasks {
    pub local_transform: u64,
    pub global_transform: u64,
    pub local_transform_dirty: u64,
}

/// Where a command goes when it arrives: a selection happens at once (or
/// fails on a handle that is not live), a load starts its fetch, and every
/// other command waits for the frame's apply step.
#[derive(Debug)]
pub enum CommandRoute {
    Select(Entity),
    NotLive,
    Load(String),
    Queue(AgentCommand),
}

/// Routes an arriving command.
pub fn route_command(masks: &Masks, command: AgentCommand) -> (r: CommandRoute)
    ensures
        match command {
            AgentCommand::SelectNode { entity } => match spec_live(masks@, entity) {
                Some(e) => r == CommandRoute::Select(e),
                None => r is NotLive,
            },
            AgentCommand::LoadGltf { uri } => r == CommandRoute::Load(uri),
            other => r == CommandRoute::Queue(other),
        },
{
    match command {
        AgentCommand::SelectNode { entity } => match live(masks, entity) {
            Some(handle) => CommandRoute::Select(handle),
            None => CommandRoute::NotLive,
        },
        AgentCommand::LoadGltf { uri } => CommandRoute::Load(uri),
        other => CommandRoute::Queue(other),
    }
}

/// What the engine must do to apply a command the agent sent.
#[derive(Debug)]
pub enum CommandPlan {
    /// Write each component of the bag onto a live entity.
    SetComponents { entity: Entity, components: Vec<(String, JsonValue)> },
    /// Spawn one entity with these mask bits, then write the bag onto it.
    Spawn { mask: u64, components: Vec<(String, JsonValue)> },
    /// Remove these mask bits from a live entity.
    RemoveComponents { entity: Entity, mask: u64 },
    /// Reparent a live entity under a live parent, or detach it.
    Reparent { child: Entity, parent: Option<Entity> },
    /// Despawn a live entity and its descendants.
    Despawn { entity: Entity },
}

/// The names of a component bag, in bag order.
pub open spec fn bag_names(components: Seq<(String, JsonValue)>) -> Seq<Seq<char>> {
    Seq::new(components.len(), |i: int| components[i].0@)
}

fn collect_bag_names(components: &Vec<(String, JsonValue)>) -> (r: Vec<String>)
    ensures
        names_view(r@) == bag_names(components@),
{
    let mut r: Vec<String> = Vec::new();
    let mut i: usize = 0;
    while i < components.len()
        invariant
            i <= components@.len(),
            names_view(r@) =~= bag_names(components@).take(i as int),
        decreases components@.len() - i,
    {
        let ghost before = names_view(r@);
        r.push(components[i].0.clone());
        assert(names_view(r@) =~= before.push(components@[i as int].0@));
        i += 1;
    }
    assert(bag_names(components@).take(components@.len() as int) =~= bag_names(components@));
    r
}

fn text(s: &str) -> (r: String)
    ensures
        r@ == s@,
{
    String::from_str(s)
}

/// Decides how to apply a queued command. A handle that is not live, or a
/// bag that names a component the bag may not write, refuses the whole
/// command before anything is written. Selection and loads are handled
/// outside the frame's apply step.
pub fn plan_command(
    masks: &Masks,
    registry: &Vec<ComponentEntry>,
    engine: TransformMasks,
    command: AgentCommand,
) -> (r: Result<CommandPlan, String>)
    ensures
        match command {
            AgentCommand::SetComponents { entity, components } => match spec_live(masks@, entity) {
                None => r is Err && r->Err_0@ == "entity not live"@,
                Some(e) => match spec_writable_mask(entries_view(registry@), bag_names(components@)) {
                    Err(message) => r is Err && r->Err_0@ == message,
                    Ok(_) => r == Ok::<CommandPlan, String>(CommandPlan::SetComponents { entity: e, components }),
                },
            },
            AgentCommand::SpawnEntity { components } => match spec_writable_mask(entries_view(registry@), bag_names(components@)) {
                Err(message) => r is Err && r->Err_0@ == message,
                Ok(mask) => r == Ok::<CommandPlan, String>(CommandPlan::Spawn {
                    mask: if (mask & engine.local_transform) != 0 {
                        mask | engine.global_transform | engine.local_transform_dirty
                    } else {
                        mask
                    },
                    components,
                }),
            },
            AgentCommand::RemoveComponents { entity, component_types } => match spec_live(masks@, entity) {
                None => r is Err && r->Err_0@ == "entity not live"@,
                Some(e) => match spec_writable_mask(entries_view(registry@), names_view(component_types@)) {
                    Err(message) => r is Err && r->Err_0@ == message,
                    Ok(mask) => r == Ok::<CommandPlan, String>(CommandPlan::RemoveComponents { entity: e, mask }),
                },
            },
            AgentCommand::Reparent { child, new_parent } => match spec_live(masks@, child) {
                None => r is Err && r->Err_0@ == "child not live"@,
                Some(c) => match new_parent {
                    None => r == Ok::<CommandPlan, String>(CommandPlan::Reparent { child: c, parent: None }),
                    Some(p) => match spec_live(masks@, p) {
                        None => r is Err && r->Err_0@ == "new parent not live"@,
                        Some(pe) => r == Ok::<CommandPlan, String>(CommandPlan::Reparent { child: c, parent: Some(pe) }),
                    },
                },
            },
            AgentCommand::DeleteEntity { entity } => match spec_live(masks@, entity) {
                None => r is Err && r->Err_0@ == "entity not live"@,
                Some(e) => r == Ok::<CommandPlan, String>(CommandPlan::Despawn { entity: e }),
            },
            _ => r is Err && r->Err_0@ == "command handled out of band"@,
        },
{
    match command {
        AgentCommand::SetComponents { entity, components } => {
            let handle = match live(masks, entity) {
                Some(handle) => handle,
                None => return Err(text("entity not live")),
            };
            let names = collect_bag_names(&components);
            match writable_mask(registry, &names) {
                Err(message) => Err(message),
                Ok(_) => Ok(CommandPlan::SetComponents { entity: handle, components }),
            }
        },
        AgentCommand::SpawnEntity { components } => {
            let names = collect_bag_names(&components);
            match writable_mask(registry, &names) {
                Err(message) => Err(message),
                Ok(mask) => {
                    let mask = if (mask & engine.local_transform) != 0 {
                        mask | engine.global_transform | engine.local_transform_dirty
                    } else {
                        mask
                    };
                    Ok(CommandPlan::Spawn { mask, components })
                },
            }
        },
        AgentCommand::RemoveComponents { entity, component_types } => {
            let handle = match live(masks, entity) {
                Some(handle) => handle,
                None => return Err(text("entity not live")),
            };
            match writable_mask(registry, &component_types) {
                Err(message) => Err(message),
                Ok(mask) => Ok(CommandPlan::RemoveComponents { entity: handle, mask }),
            }
        },
        AgentCommand::Reparent { child, new_parent } => {
            let handle = match live(masks, child) {
                Some(handle) => handle,
                None => return Err(text("child not live")),
            };
            match new_parent {
                None => Ok(CommandPlan::Reparent { child: handle, parent: None }),
                Some(reference) => match live(masks, reference) {
                    None => Err(text("new parent not live")),
                    Some(parent) => Ok(CommandPlan::Reparent { child: handle, parent: Some(parent) }),
                },
            }
        },
        AgentCommand::DeleteEntity { entity } => match live(masks, entity) {
            None => Err(text("entity not live")),
            Some(handle) => Ok(CommandPlan::Despawn { entity: handle }),
        },
        _ => Err(text("command handled out of band")),
    }
}

/// The handles of the given entities, in order.
pub open spec fn refs_of(entities: Seq<Entity>) -> Seq<EntityRef> {
    Seq::new(entities.len(), |i: int| spec_to_ref(entities[i]))
}

/// The acknowledgement of an additive load: the spawned roots' handles at the
/// current version.
pub fn ack_load(state: &AgentState, correlation_id: CorrelationId, roots: &[Entity]) -> (r: AgentResponse)
    ensures
        match r {
            AgentResponse::Loaded { correlation_id: c, version, roots: reported } => c == correlation_id
                && version == state.version && reported@ == refs_of(roots@),
            _ => false,
        },
{
    let mut handles: Vec<EntityRef> = Vec::new();
    let mut i: usize = 0;
    while i < roots.len()
        invariant
            i <= roots@.len(),
            handles@ =~= refs_of(roots@).take(i as int),
        decreases roots@.len() - i,
    {
        handles.push(to_ref(roots[i]));
        i += 1;
    }
    assert(refs_of(roots@).take(roots@.len() as int) =~= refs_of(roots@));
    AgentResponse::Loaded { correlation_id, version: state.version, roots: handles }
}

/// The refusal of a command, with its reason.
pub fn fail(correlation_id: CorrelationId, error: &str) -> (r: AgentResponse)
    ensures
        match r {
            AgentResponse::CommandFailed { correlation_id: c, error: e } => c == correlation_id && e@ == error@,
            _ => false,
        },
{
    AgentResponse::CommandFailed { correlation_id, error: text(error) }
}

/// The acknowledgement of an environment load, at the current version.
pub fn ack_hdri(state: &AgentState, correlation_id: CorrelationId) -> (r: AgentResponse)
    ensures
        r == (AgentResponse::CommandApplied { correlation_id, version: state.version }),
{
    AgentResponse::CommandApplied { correlation_id, version: state.version }
}

} // verus!
