//! Properties of the library that span its functions: what every frame's
//! delta stream, the relay's ring and cursors, the asset browsers and the
//! scene hierarchy keep.
use vstd::prelude::*;

use crate::agent::{
    ChangeHits, ComponentValue, Entity, added_for, added_part, changed_for, changed_part, despawned_part,
    removed_for, removed_part, spawned_part, spec_compute_deltas,
};
use crate::browsers::{chosen_resolution, due, first_with, is_best_below, last_with, values_of};
use crate::agent::collected_versions;
use crate::host::{
    RING_CAPACITY, correlation_after, failed, is_placeholder, resolve_items, resolve_members, ring_after,
    spec_filter_batch, spec_poll, spec_resolve_refs,
};
use crate::json::{JsonView, sorted_keys};
use crate::order::text_less;
use crate::host::{applied_view, entity_ref_view, failure_entry, loaded_view, success_entry};
use crate::catalog::{khronos_item, poly_item, spec_asset_catalog};
use crate::browsers::{Browsers, KhronosAssetView, PolyAssetView};
use crate::protocol::EntityRef;
use crate::picking::{Picking, cycle_depth_for};
use crate::seqs::{first_where, lemma_first_where_none};
use crate::protocol::{DeltaBatch, DeltaBatchView, DeltaView, Version};
use crate::registry::EntryView;
use crate::scene::{Context, EntityId, is_live, name_component, parent_component, spec_component_mask, ranks_parents, subtree, children_of};
use crate::text::{decimal, digits_value, spec_parse_bounded, spec_parse_unsigned, unsigned_body, all_digits, is_digit, digit_char};

use crate::args::{DEFAULT_MODEL_RESOLUTION, ToolCall, ToolStep, spec_tool_step};
use crate::browsers::FetchState;
use crate::drop::{DropRouteView, directory_of, has_extension, is_hdr_file, is_model_file, relative_to, spec_route_files};
use crate::environment::{Atmosphere, atmosphere_of_key};
use crate::json::{keyed_member, spec_get_key};
use crate::protocol::AgentCommand;
use crate::registry::{ComponentMasks, PolicyView, spec_registry, spec_writable};
use crate::seqs::lemma_first_where_is;
use crate::text::without_chars;
use crate::unzip::{archive_entry, unpacked_files};

verus! {

/// The phase a delta belongs to in a frame's stream: creates (spawns and
/// added components), then values (changes), then deletes (removed
/// components and despawns).
pub open spec fn delta_phase(d: DeltaView) -> int {
    match d {
        DeltaView::Spawned { .. } => 0,
        DeltaView::Added { .. } => 0,
        DeltaView::Changed { .. } => 1,
        DeltaView::Removed { .. } => 2,
        DeltaView::Despawned { .. } => 2,
    }
}

/// The correlation id a delta is tagged with.
pub open spec fn delta_origin(d: DeltaView) -> Option<u64> {
    match d {
        DeltaView::Spawned { origin, .. } => origin,
        DeltaView::Added { origin, .. } => origin,
        DeltaView::Changed { origin, .. } => origin,
        DeltaView::Removed { origin, .. } => origin,
        DeltaView::Despawned { origin, .. } => origin,
    }
}

/// Every delta of a list is in one phase and carries no origin.
pub open spec fn untagged_in_phase(s: Seq<DeltaView>, phase: int) -> bool {
    forall|i: int| 0 <= i < s.len() ==> delta_phase(#[trigger] s[i]) == phase && delta_origin(s[i]) is None
}

proof fn lemma_push_phase(s: Seq<DeltaView>, d: DeltaView, phase: int)
    requires
        untagged_in_phase(s, phase),
        delta_phase(d) == phase,
        delta_origin(d) is None,
    ensures
        untagged_in_phase(s.push(d), phase),
{
    assert forall|i: int| 0 <= i < s.push(d).len() implies delta_phase(#[trigger] s.push(d)[i]) == phase
        && delta_origin(s.push(d)[i]) is None by {
        if i < s.len() {
            assert(s.push(d)[i] == s[i]);
        }
    }
}

proof fn lemma_concat_phase(a: Seq<DeltaView>, b: Seq<DeltaView>, phase: int)
    requires
        untagged_in_phase(a, phase),
        untagged_in_phase(b, phase),
    ensures
        untagged_in_phase(a + b, phase),
{
    assert forall|i: int| 0 <= i < (a + b).len() implies delta_phase(#[trigger] (a + b)[i]) == phase
        && delta_origin((a + b)[i]) is None by {
        if i < a.len() {
            assert((a + b)[i] == a[i]);
        } else {
            assert((a + b)[i] == b[i - a.len()]);
        }
    }
}

proof fn lemma_spawned_part(values: Seq<ComponentValue>, shadow: Seq<(Entity, u64)>, watched: Seq<EntryView>, current: Seq<(Entity, u64)>)
    ensures
        untagged_in_phase(spawned_part(values, shadow, watched, current), 0),
    decreases current.len(),
{
    if current.len() > 0 {
        lemma_spawned_part(values, shadow, watched, current.drop_last());
        let before = spawned_part(values, shadow, watched, current.drop_last());
        let (entity, mask) = current.last();
        if crate::agent::mask_of(shadow, entity) is None {
            lemma_push_phase(
                before,
                DeltaView::Spawned {
                    entity: crate::agent::spec_to_ref(entity),
                    components: crate::agent::spawn_components(values, watched, entity, mask),
                    origin: None,
                },
                0,
            );
        }
    }
}

proof fn lemma_added_for(values: Seq<ComponentValue>, watched: Seq<EntryView>, entity: Entity, added: u64)
    ensures
        untagged_in_phase(added_for(values, watched, entity, added), 0),
    decreases watched.len(),
{
    if watched.len() > 0 {
        lemma_added_for(values, watched.drop_last(), entity, added);
        let before = added_for(values, watched.drop_last(), entity, added);
        let t = watched.last();
        if (added & t.mask) != 0 && crate::agent::serialized(values, entity, t.name) is Some {
            lemma_push_phase(
                before,
                DeltaView::Added {
                    entity: crate::agent::spec_to_ref(entity),
                    component: t.name,
                    value: crate::agent::serialized(values, entity, t.name)->Some_0,
                    origin: None,
                },
                0,
            );
        }
    }
}

proof fn lemma_added_part(values: Seq<ComponentValue>, shadow: Seq<(Entity, u64)>, watched: Seq<EntryView>, current: Seq<(Entity, u64)>)
    ensures
        untagged_in_phase(added_part(values, shadow, watched, current), 0),
    decreases current.len(),
{
    if current.len() > 0 {
        lemma_added_part(values, shadow, watched, current.drop_last());
        let (entity, mask) = current.last();
        match crate::agent::mask_of(shadow, entity) {
            Some(old) => {
                lemma_added_for(values, watched, entity, mask & !old);
                lemma_concat_phase(
                    added_part(values, shadow, watched, current.drop_last()),
                    added_for(values, watched, entity, mask & !old),
                    0,
                );
            },
            None => {},
        }
    }
}

proof fn lemma_changed_for(shadow: Seq<(Entity, u64)>, current: Seq<(Entity, u64)>, t: EntryView, hits: Seq<(Entity, crate::json::JsonView)>)
    ensures
        untagged_in_phase(changed_for(shadow, current, t, hits), 1),
    decreases hits.len(),
{
    if hits.len() > 0 {
        lemma_changed_for(shadow, current, t, hits.drop_last());
        let before = changed_for(shadow, current, t, hits.drop_last());
        let (entity, value) = hits.last();
        if crate::agent::reports_change(shadow, current, t.mask, entity) {
            lemma_push_phase(
                before,
                DeltaView::Changed { entity: crate::agent::spec_to_ref(entity), component: t.name, value, origin: None },
                1,
            );
        }
    }
}

proof fn lemma_changed_part(shadow: Seq<(Entity, u64)>, current: Seq<(Entity, u64)>, watched: Seq<EntryView>, changes: Seq<ChangeHits>)
    ensures
        untagged_in_phase(changed_part(shadow, current, watched, changes), 1),
    decreases watched.len(),
{
    if watched.len() > 0 {
        lemma_changed_part(shadow, current, watched.drop_last(), changes);
        let hits = crate::agent::hits_for(changes, watched.last().name);
        lemma_changed_for(shadow, current, watched.last(), hits);
        lemma_concat_phase(
            changed_part(shadow, current, watched.drop_last(), changes),
            changed_for(shadow, current, watched.last(), hits),
            1,
        );
    }
}

proof fn lemma_removed_for(watched: Seq<EntryView>, entity: Entity, removed: u64)
    ensures
        untagged_in_phase(removed_for(watched, entity, removed), 2),
    decreases watched.len(),
{
    if watched.len() > 0 {
        lemma_removed_for(watched.drop_last(), entity, removed);
        let t = watched.last();
        if (removed & t.mask) != 0 {
            lemma_push_phase(
                removed_for(watched.drop_last(), entity, removed),
                DeltaView::Removed { entity: crate::agent::spec_to_ref(entity), component: t.name, origin: None },
                2,
            );
        }
    }
}

proof fn lemma_removed_part(shadow: Seq<(Entity, u64)>, watched: Seq<EntryView>, current: Seq<(Entity, u64)>)
    ensures
        untagged_in_phase(removed_part(shadow, watched, current), 2),
    decreases current.len(),
{
    if current.len() > 0 {
        lemma_removed_part(shadow, watched, current.drop_last());
        let (entity, mask) = current.last();
        match crate::agent::mask_of(shadow, entity) {
            Some(old) => {
                lemma_removed_for(watched, entity, old & !mask);
                lemma_concat_phase(
                    removed_part(shadow, watched, current.drop_last()),
                    removed_for(watched, entity, old & !mask),
                    2,
                );
            },
            None => {},
        }
    }
}

proof fn lemma_despawned_part(shadow: Seq<(Entity, u64)>, current: Seq<(Entity, u64)>)
    ensures
        untagged_in_phase(despawned_part(shadow, current), 2),
    decreases shadow.len(),
{
    if shadow.len() > 0 {
        lemma_despawned_part(shadow.drop_last(), current);
        let entity = shadow.last().0;
        if crate::agent::mask_of(current, entity) is None {
            lemma_push_phase(
                despawned_part(shadow.drop_last(), current),
                DeltaView::Despawned { entity: crate::agent::spec_to_ref(entity), origin: None },
                2,
            );
        }
    }
}

/// A frame's deltas come creates first, then values, then deletes, and none
/// carries an origin.
pub proof fn law_delta_order(
    values: Seq<ComponentValue>,
    changes: Seq<ChangeHits>,
    shadow: Seq<(Entity, u64)>,
    current: Seq<(Entity, u64)>,
    watched: Seq<EntryView>,
)
    ensures
        ({
            let d = spec_compute_deltas(values, changes, shadow, current, watched);
            &&& forall|i: int, j: int| 0 <= i < j < d.len() ==> delta_phase(#[trigger] d[i]) <= delta_phase(#[trigger] d[j])
            &&& forall|i: int| 0 <= i < d.len() ==> delta_origin(#[trigger] d[i]) is None
        }),
{
    let s = spawned_part(values, shadow, watched, current);
    let a = added_part(values, shadow, watched, current);
    let c = changed_part(shadow, current, watched, changes);
    let r = removed_part(shadow, watched, current);
    let x = despawned_part(shadow, current);
    lemma_spawned_part(values, shadow, watched, current);
    lemma_added_part(values, shadow, watched, current);
    lemma_changed_part(shadow, current, watched, changes);
    lemma_removed_part(shadow, watched, current);
    lemma_despawned_part(shadow, current);
    lemma_concat_phase(s, a, 0);
    lemma_concat_phase(r, x, 2);
    let creates = s + a;
    let deletes = r + x;
    let d = spec_compute_deltas(values, changes, shadow, current, watched);
    assert(d =~= creates + c + deletes);
    assert forall|i: int| 0 <= i < d.len() implies delta_phase(#[trigger] d[i]) == if i < creates.len() {
        0int
    } else if i < creates.len() + c.len() {
        1int
    } else {
        2int
    } && delta_origin(d[i]) is None by {
        if i < creates.len() {
            assert(d[i] == creates[i]);
        } else if i < creates.len() + c.len() {
            assert(d[i] == c[i - creates.len()]);
        } else {
            assert(d[i] == deletes[i - creates.len() - c.len()]);
        }
    }
}


/// The relay's ring never holds more than [`RING_CAPACITY`] batches, the
/// batch just buffered is the newest one kept, and what is kept is the newest
/// part of what arrived.
pub proof fn law_ring_keeps_newest(ring: Seq<DeltaBatch>, batch: DeltaBatch)
    ensures
        ring_after(ring, batch).len() <= RING_CAPACITY,
        ring_after(ring, batch).last() == batch,
        ring.len() < RING_CAPACITY ==> ring_after(ring, batch) == ring.push(batch),
        exists|k: int| 0 <= k <= ring.len() && ring_after(ring, batch) == #[trigger] ring.push(batch).skip(k),
{
    let all = ring.push(batch);
    if all.len() > RING_CAPACITY {
        let k = all.len() - RING_CAPACITY;
        assert(ring_after(ring, batch) == all.skip(k));
    } else {
        assert(all.skip(0) =~= all);
    }
}

/// A poll's cursor never goes back, and it ends past every buffered batch.
proof fn lemma_poll_reaches(ring: Seq<DeltaBatchView>, cursor: u64, names: Seq<Seq<char>>)
    ensures
        spec_poll(ring, cursor, names).0 >= cursor,
        forall|i: int| 0 <= i < ring.len() ==> (#[trigger] ring[i]).target_version <= spec_poll(ring, cursor, names).0,
    decreases ring.len(),
{
    if ring.len() > 0 {
        lemma_poll_reaches(ring.drop_last(), cursor, names);
        assert forall|i: int| 0 <= i < ring.len() implies (#[trigger] ring[i]).target_version <= spec_poll(
            ring,
            cursor,
            names,
        ).0 by {
            if i < ring.len() - 1 {
                assert(ring[i] == ring.drop_last()[i]);
            }
        }
    }
}

/// A poll from a cursor past every buffered batch delivers nothing.
proof fn lemma_poll_past_all(ring: Seq<DeltaBatchView>, cursor: u64, names: Seq<Seq<char>>)
    requires
        forall|i: int| 0 <= i < ring.len() ==> (#[trigger] ring[i]).target_version <= cursor,
    ensures
        spec_poll(ring, cursor, names) == (cursor, Seq::<DeltaBatchView>::empty()),
    decreases ring.len(),
{
    if ring.len() > 0 {
        assert forall|i: int| 0 <= i < ring.drop_last().len() implies (#[trigger] ring.drop_last()[i]).target_version
            <= cursor by {
            assert(ring.drop_last()[i] == ring[i]);
        }
        lemma_poll_past_all(ring.drop_last(), cursor, names);
        assert(ring.last() == ring[ring.len() - 1]);
    }
}

/// A subscription's cursor never moves back, and polling again before any
/// new batch arrives delivers nothing and leaves the cursor where it was.
pub proof fn law_poll_catches_up(ring: Seq<DeltaBatchView>, cursor: u64, names: Seq<Seq<char>>)
    ensures
        spec_poll(ring, cursor, names).0 >= cursor,
        spec_poll(ring, spec_poll(ring, cursor, names).0, names) == (
            spec_poll(ring, cursor, names).0,
            Seq::<DeltaBatchView>::empty(),
        ),
{
    lemma_poll_reaches(ring, cursor, names);
    lemma_poll_past_all(ring, spec_poll(ring, cursor, names).0, names);
}

/// A filter that names no component keeps every delta of a batch.
pub proof fn law_empty_filter_keeps_batch(batch: DeltaBatchView)
    ensures
        spec_filter_batch(batch, Seq::empty()) == batch,
{
    let p = crate::host::keeps(Seq::<Seq<char>>::empty());
    assert forall|i: int| 0 <= i < batch.deltas.len() implies p(batch.deltas[i]) by {}
    lemma_filter_all(batch.deltas, p);
}

/// Filtering by a predicate every element satisfies keeps the list.
proof fn lemma_filter_all<A>(s: Seq<A>, p: spec_fn(A) -> bool)
    requires
        forall|i: int| 0 <= i < s.len() ==> p(s[i]),
    ensures
        s.filter(p) == s,
    decreases s.len(),
{
    reveal_with_fuel(Seq::<_>::filter, 1);
    if s.len() > 0 {
        assert forall|i: int| 0 <= i < s.drop_last().len() implies p(s.drop_last()[i]) by {
            assert(s.drop_last()[i] == s[i]);
        }
        lemma_filter_all(s.drop_last(), p);
        assert(s.drop_last().push(s.last()) =~= s);
        assert(p(s[s.len() - 1]));
    } else {
        assert(s.filter(p) =~= s);
    }
}


/// The decimal text of a number is digits only and reads back as the number.
proof fn lemma_decimal_digits(n: nat)
    ensures
        decimal(n).len() > 0,
        all_digits(decimal(n)),
        digits_value(decimal(n)) == n,
    decreases n,
{
    let d = n % 10;
    assert(digit_char(d) as nat == 48 + d);
    if n >= 10 {
        lemma_decimal_digits(n / 10);
        let s = decimal(n / 10);
        assert(decimal(n) == s.push(digit_char(d)));
        assert(decimal(n).drop_last() =~= s);
        assert(decimal(n).last() == digit_char(d));
        assert(crate::text::digit_value(digit_char(d)) == d);
        assert(digits_value(decimal(n)) == digits_value(s) * 10 + crate::text::digit_value(digit_char(d)));
        assert((n / 10) * 10 + n % 10 == n);
        assert forall|i: int| 0 <= i < decimal(n).len() implies is_digit(#[trigger] decimal(n)[i]) by {
            if i < s.len() {
                assert(decimal(n)[i] == s[i]);
            }
        }
    } else {
        assert(decimal(n).drop_last() =~= Seq::<char>::empty());
        assert(crate::text::digit_value(digit_char(d)) == d);
        assert(digits_value(decimal(n)) == digits_value(Seq::<char>::empty()) * 10 + crate::text::digit_value(digit_char(d)));
    }
}

/// Writing a number in decimal and reading it back gives the number, when
/// it is within the reader's bound.
pub proof fn law_decimal_reads_back(n: nat, max: nat)
    requires
        n <= max,
    ensures
        spec_parse_bounded(decimal(n), max) == Some(n),
{
    lemma_decimal_digits(n);
    let s = decimal(n);
    assert(is_digit(s[0]));
    assert(unsigned_body(s) == s);
}


/// A handle whose generation is not the one its index now holds reaches
/// nothing: it is not live and has no components, so a stale handle never
/// reads the new occupant's data.
pub proof fn law_stale_handle_reaches_nothing(ctx: Context, e: EntityId)
    requires
        e.id < ctx.entity_locations.locations@.len(),
        ctx.entity_locations.locations@[e.id as int].generation != e.generation,
    ensures
        !is_live(ctx, e),
        spec_component_mask(ctx, e) is None,
        name_component(ctx, e) is None,
        parent_component(ctx, e) is None,
{
}

/// A listing of an entity and its descendants starts with the entity, and
/// every child listed names the entity as its parent.
pub proof fn law_subtree_of_entity(ctx: Context, rank: spec_fn(EntityId) -> nat, e: EntityId)
    requires
        ranks_parents(ctx, rank),
    ensures
        subtree(ctx, rank, e).len() >= 1,
        subtree(ctx, rank, e)[0] == e,
        forall|i: int| 0 <= i < children_of(ctx, e).len() ==> parent_component(ctx, #[trigger] children_of(ctx, e)[i]) == Some(e),
{
    let all = crate::scene::spec_query_entities(ctx, crate::scene::PARENT);
    assert forall|i: int| 0 <= i < children_of(ctx, e).len() implies parent_component(
        ctx,
        #[trigger] children_of(ctx, e)[i],
    ) == Some(e) by {
        all.lemma_filter_pred(crate::scene::child_of(ctx, e), i);
    }
}

/// When an entry has exactly the preferred resolution, the choice has it.
pub proof fn law_pick_exact_resolution(values: Seq<u32>, preferred: u32, i: int)
    requires
        0 <= i < values.len(),
        values[i] == preferred,
    ensures
        chosen_resolution(values, preferred) matches Some(k) && 0 <= k < values.len() && values[k] == preferred,
{
    lemma_first_exists(values, preferred, i);
}

/// Some index holds a value, so a first one does.
proof fn lemma_first_exists(values: Seq<u32>, v: u32, i: int)
    requires
        0 <= i < values.len(),
        values[i] == v,
    ensures
        exists|k: int| 0 <= k < values.len() && values[k] == v && forall|j: int| 0 <= j < k ==> values[j] != v,
    decreases i,
{
    if exists|j: int| 0 <= j < i && values[j] == v {
        let j = choose|j: int| 0 <= j < i && values[j] == v;
        lemma_first_exists(values, v, j);
    } else {
        assert(forall|j: int| 0 <= j < i ==> values[j] != v);
    }
}

/// Without the preferred resolution, the choice is the highest resolution
/// below it when there is one, and otherwise never below any entry.
pub proof fn law_pick_nearest_below(values: Seq<u32>, preferred: u32)
    requires
        values.len() > 0,
        forall|i: int| 0 <= i < values.len() ==> values[i] != preferred,
    ensures
        chosen_resolution(values, preferred) is Some,
        (exists|i: int| 0 <= i < values.len() && values[i] <= preferred) ==> ({
            let k = chosen_resolution(values, preferred)->Some_0;
            &&& 0 <= k < values.len()
            &&& values[k] <= preferred
            &&& forall|j: int| 0 <= j < values.len() && values[j] <= preferred ==> values[j] <= values[k]
        }),
        !(exists|i: int| 0 <= i < values.len() && values[i] <= preferred) ==> ({
            let k = chosen_resolution(values, preferred)->Some_0;
            &&& 0 <= k < values.len()
            &&& forall|j: int| 0 <= j < values.len() ==> values[k] <= values[j]
        }),
{
    if exists|i: int| 0 <= i < values.len() && values[i] <= preferred {
        let w = choose|i: int| 0 <= i < values.len() && values[i] <= preferred;
        lemma_best_below_exists(values, preferred, w);
        let cm = choose|m: u32| is_best_below(values, preferred, m);
        assert(is_best_below(values, preferred, cm));
        let i = choose|i: int| 0 <= i < values.len() && values[i] == cm;
        lemma_last_exists(values, cm, i);
    } else {
        lemma_smallest_exists(values, 0);
        let cm = choose|m: u32| crate::browsers::is_smallest(values, m);
        assert(crate::browsers::is_smallest(values, cm));
        let i = choose|i: int| 0 <= i < values.len() && values[i] == cm;
        lemma_first_exists(values, cm, i);
    }
}

/// Some index holds a value, so a last one does.
proof fn lemma_last_exists(values: Seq<u32>, v: u32, i: int)
    requires
        0 <= i < values.len(),
        values[i] == v,
    ensures
        exists|k: int| 0 <= k < values.len() && values[k] == v && forall|j: int| k < j < values.len() ==> values[j] != v,
    decreases values.len() - i,
{
    if exists|j: int| i < j < values.len() && values[j] == v {
        let j = choose|j: int| i < j < values.len() && values[j] == v;
        lemma_last_exists(values, v, j);
    } else {
        assert(forall|j: int| i < j < values.len() ==> values[j] != v);
    }
}

/// When some value is at most `preferred`, a largest such value exists.
proof fn lemma_best_below_exists(values: Seq<u32>, preferred: u32, w: int) -> (m: u32)
    requires
        0 <= w < values.len(),
        values[w] <= preferred,
    ensures
        is_best_below(values, preferred, m),
    decreases preferred - values[w],
{
    if exists|j: int| 0 <= j < values.len() && values[j] <= preferred && values[j] > values[w] {
        let j = choose|j: int| 0 <= j < values.len() && values[j] <= preferred && values[j] > values[w];
        lemma_best_below_exists(values, preferred, j)
    } else {
        values[w]
    }
}

/// A non-empty list has a smallest value.
proof fn lemma_smallest_exists(values: Seq<u32>, w: int) -> (m: u32)
    requires
        0 <= w < values.len(),
    ensures
        crate::browsers::is_smallest(values, m),
    decreases values[w],
{
    if exists|j: int| 0 <= j < values.len() && values[j] < values[w] {
        let j = choose|j: int| 0 <= j < values.len() && values[j] < values[w];
        lemma_smallest_exists(values, j)
    } else {
        values[w]
    }
}

/// The id handed out `k` calls after `start` is `start + k`, wrapping at
/// 2^64.
proof fn lemma_correlation_after(start: u64, k: nat)
    ensures
        correlation_after(start, k) == (start + k) % 0x1_0000_0000_0000_0000,
    decreases k,
{
    if k > 0 {
        lemma_correlation_after(start, (k - 1) as nat);
    }
}

/// Correlation ids are unique for the relay's lifetime: fewer than 2^64
/// successive calls never hand out the same id twice.
pub proof fn law_correlation_ids_distinct(start: u64, i: nat, j: nat)
    requires
        i < j < 0x1_0000_0000_0000_0000,
    ensures
        correlation_after(start, i) != correlation_after(start, j),
{
    lemma_correlation_after(start, i);
    lemma_correlation_after(start, j);
}

/// The batches of a ring past a cursor, filtered, in ring order.
pub open spec fn past_cursor(ring: Seq<DeltaBatchView>, cursor: u64, names: Seq<Seq<char>>) -> Seq<DeltaBatchView>
    decreases ring.len(),
{
    if ring.len() == 0 {
        seq![]
    } else {
        past_cursor(ring.drop_last(), cursor, names) + if ring.last().target_version > cursor {
            seq![spec_filter_batch(ring.last(), names)]
        } else {
            Seq::<DeltaBatchView>::empty()
        }
    }
}

/// On a ring whose targets increase, a poll delivers exactly the batches
/// whose target lies past the cursor, filtered and in ring order, and moves
/// the cursor to the last target (leaving it when none lies past it).
pub proof fn law_poll_delivers_past_cursor(ring: Seq<DeltaBatchView>, cursor: u64, names: Seq<Seq<char>>)
    requires
        forall|i: int, j: int| 0 <= i < j < ring.len() ==> (#[trigger] ring[i]).target_version < (#[trigger] ring[j]).target_version,
    ensures
        spec_poll(ring, cursor, names) == (
            if ring.len() > 0 && ring.last().target_version > cursor {
                ring.last().target_version
            } else {
                cursor
            },
            past_cursor(ring, cursor, names),
        ),
    decreases ring.len(),
{
    if ring.len() > 0 {
        let rest = ring.drop_last();
        assert forall|i: int, j: int| 0 <= i < j < rest.len() implies (#[trigger] rest[i]).target_version
            < (#[trigger] rest[j]).target_version by {
            assert(rest[i] == ring[i] && rest[j] == ring[j]);
        }
        law_poll_delivers_past_cursor(rest, cursor, names);
        if rest.len() > 0 {
            assert(rest.last() == ring[rest.len() - 1]);
            assert(ring[rest.len() - 1].target_version < ring[ring.len() - 1].target_version);
        }
    }
}

/// The versions the collections from a version on span, one after another.
pub open spec fn collections_from(version: Version, k: nat) -> (Version, Version) {
    collected_versions((version + k) as Version)
}

/// Successive batches chain: each collection's batch starts at the version
/// the previous one reached, and moves one step on (while the counter does
/// not wrap).
pub proof fn law_batches_chain(version: Version, k: nat)
    requires
        version + k + 1 < u64::MAX,
    ensures
        collections_from(version, k + 1).0 == collections_from(version, k).1,
        collections_from(version, k).1 == collections_from(version, k).0 + 1,
{
}

/// Whether a value holds no `{"$ref": ...}` placeholder anywhere.
pub open spec fn placeholder_free(v: JsonView) -> bool
    decreases v,
{
    match v {
        JsonView::Object(members) => !is_placeholder(members) && forall|i: int|
            0 <= i < members.len() ==> placeholder_free(#[trigger] members[i].1),
        JsonView::Array(items) => forall|i: int| 0 <= i < items.len() ==> placeholder_free(#[trigger] items[i]),
        _ => true,
    }
}

/// A value without placeholders resolves to itself, whatever the earlier
/// results are.
pub proof fn law_resolve_without_refs(v: JsonView, results: Seq<JsonView>)
    requires
        placeholder_free(v),
    ensures
        spec_resolve_refs(v, results) == Ok::<JsonView, Seq<char>>(v),
    decreases v,
{
    match v {
        JsonView::Object(members) => {
            let resolved = resolve_members(members, results);
            assert forall|i: int| 0 <= i < members.len() implies #[trigger] resolved[i] == Ok::<JsonView, Seq<char>>(
                members[i].1,
            ) by {
                law_resolve_without_refs(members[i].1, results);
            }
            assert forall|i: int| 0 <= i < resolved.len() implies !failed()(#[trigger] resolved[i]) by {
                assert(resolved[i] == Ok::<JsonView, Seq<char>>(members[i].1));
            }
            lemma_first_where_none(resolved, failed());
            assert(Seq::new(members.len(), |i: int| (members[i].0, resolved[i]->Ok_0)) =~= members);
        },
        JsonView::Array(items) => {
            let resolved = resolve_items(items, results);
            assert forall|i: int| 0 <= i < items.len() implies #[trigger] resolved[i] == Ok::<JsonView, Seq<char>>(
                items[i],
            ) by {
                law_resolve_without_refs(items[i], results);
            }
            assert forall|i: int| 0 <= i < resolved.len() implies !failed()(#[trigger] resolved[i]) by {
                assert(resolved[i] == Ok::<JsonView, Seq<char>>(items[i]));
            }
            lemma_first_where_none(resolved, failed());
            assert(Seq::new(items.len(), |i: int| resolved[i]->Ok_0) =~= items);
        },
        _ => {},
    }
}

/// One pick of a leaf under a root, whose chain from the root is given: the
/// picking state and the selection afterwards.
pub open spec fn pick_step(picking: Picking, selected: Option<Entity>, leaf: Entity, root: Entity, chain: Seq<Entity>) -> (Picking, Option<Entity>) {
    let depth = cycle_depth_for(picking, selected, leaf, root, chain);
    (
        Picking { pending: picking.pending, last_leaf: Some(leaf), last_root: Some(root), cycle_depth: depth as usize },
        Some(chain[depth]),
    )
}

/// The picking state and selection after `j` picks of the same leaf.
pub open spec fn repeated_picks(
    picking: Picking,
    selected: Option<Entity>,
    leaf: Entity,
    root: Entity,
    chain: Seq<Entity>,
    j: nat,
) -> (Picking, Option<Entity>)
    decreases j,
{
    if j == 0 {
        (picking, selected)
    } else {
        let (p, s) = repeated_picks(picking, selected, leaf, root, chain, (j - 1) as nat);
        pick_step(p, s, leaf, root, chain)
    }
}

/// Repeated picks of the same leaf cycle: the first selects the chain's
/// first entity (the model root), each repeat one level further toward the
/// leaf, wrapping back to the root.
pub proof fn law_picks_cycle(picking: Picking, selected: Option<Entity>, leaf: Entity, root: Entity, chain: Seq<Entity>, j: nat)
    requires
        1 <= chain.len() <= usize::MAX,
        !(picking.last_leaf == Some(leaf) && picking.last_root == Some(root)),
        j >= 1,
    ensures
        repeated_picks(picking, selected, leaf, root, chain, j).0.cycle_depth == (j - 1) % (chain.len() as int),
        repeated_picks(picking, selected, leaf, root, chain, j).1 == Some(chain[(j - 1) % (chain.len() as int)]),
    decreases j,
{
    let n = chain.len() as int;
    if j == 1 {
        assert(repeated_picks(picking, selected, leaf, root, chain, 0) == (picking, selected));
        assert(repeated_picks(picking, selected, leaf, root, chain, 1) == pick_step(picking, selected, leaf, root, chain));
        assert(cycle_depth_for(picking, selected, leaf, root, chain) == 0);
        assert(0int % n == 0) by (nonlinear_arith)
            requires
                n >= 1,
        ;
    }
    if j > 1 {
        law_picks_cycle(picking, selected, leaf, root, chain, (j - 1) as nat);
        let (p, s) = repeated_picks(picking, selected, leaf, root, chain, (j - 1) as nat);
        let d = (j - 2) % n;
        assert(0 <= d < n) by (nonlinear_arith)
            requires
                n >= 1,
                d == (j - 2) % n,
        ;
        assert(chain[d] == chain[d]);
        assert(chain.contains(chain[d]));
        assert(p.last_leaf == Some(leaf) && p.last_root == Some(root));
        assert((d + 1) % n == (j - 1) % n) by (nonlinear_arith)
            requires
                n >= 1,
                d == (j - 2) % n,
                j >= 2,
        ;
        assert(cycle_depth_for(p, s, leaf, root, chain) == (j - 1) % n);
        assert(repeated_picks(picking, selected, leaf, root, chain, j) == pick_step(p, s, leaf, root, chain));
    }
}

/// Texts whose first characters differ are ordered by those characters.
proof fn lemma_first_char_less(a: Seq<char>, b: Seq<char>)
    requires
        a.len() > 0,
        b.len() > 0,
        (a[0] as int) < (b[0] as int),
    ensures
        text_less(a, b),
{
}

/// Three keys in increasing order of their first characters.
proof fn lemma_three_keys(members: Seq<(Seq<char>, JsonView)>)
    requires
        members.len() == 3,
        members[0].0.len() > 0 && members[1].0.len() > 0 && members[2].0.len() > 0,
        (members[0].0[0] as int) < (members[1].0[0] as int) < (members[2].0[0] as int),
    ensures
        forall|i: int, j: int| 0 <= i < j < members.len() ==> text_less(#[trigger] members[i].0, #[trigger] members[j].0),
{
    lemma_first_char_less(members[0].0, members[1].0);
    lemma_first_char_less(members[0].0, members[2].0);
    lemma_first_char_less(members[1].0, members[2].0);
}

/// A Khronos catalog item lists its keys in order.
proof fn lemma_khronos_item_sorted(k: KhronosAssetView)
    ensures
        sorted_keys(khronos_item(k)),
{
    reveal_strlit("glb_url");
    reveal_strlit("label");
    reveal_strlit("name");
    let m = khronos_item(k)->Object_0;
    lemma_three_keys(m);
    assert forall|a: int| 0 <= a < m.len() implies sorted_keys(#[trigger] m[a].1) by {}
}

/// A Polyhaven catalog item lists its keys in order.
proof fn lemma_poly_item_sorted(p: PolyAssetView)
    ensures
        sorted_keys(poly_item(p)),
{
    reveal_strlit("name");
    reveal_strlit("slug");
    lemma_first_char_less("name"@, "slug"@);
    let m = poly_item(p)->Object_0;
    assert forall|a: int, b: int| 0 <= a < b < m.len() implies text_less(#[trigger] m[a].0, #[trigger] m[b].0) by {}
    assert forall|a: int| 0 <= a < m.len() implies sorted_keys(#[trigger] m[a].1) by {}
}

/// Every object the library builds for the agent (command and load replies,
/// entity handles, batch report entries, the asset catalog) lists its keys in
/// strictly increasing order.
pub proof fn law_built_objects_sorted(
    version: Version,
    roots: Seq<EntityRef>,
    e: EntityRef,
    tool: Seq<char>,
    text: Seq<char>,
    browsers: Browsers,
    k: KhronosAssetView,
    p: PolyAssetView,
)
    ensures
        sorted_keys(applied_view(version)),
        sorted_keys(entity_ref_view(e)),
        sorted_keys(loaded_view(version, roots)),
        sorted_keys(failure_entry(tool, text)),
        sorted_keys(success_entry(tool, text)),
        sorted_keys(khronos_item(k)),
        sorted_keys(poly_item(p)),
        sorted_keys(spec_asset_catalog(browsers)),
{
    reveal_strlit("applied");
    reveal_strlit("version");
    reveal_strlit("roots");
    reveal_strlit("generation");
    reveal_strlit("id");
    reveal_strlit("error");
    reveal_strlit("ok");
    reveal_strlit("tool");
    reveal_strlit("result");
    reveal_strlit("glb_url");
    reveal_strlit("label");
    reveal_strlit("name");
    reveal_strlit("slug");
    reveal_strlit("hdris");
    reveal_strlit("khronos");
    reveal_strlit("models");
    lemma_first_char_less("applied"@, "version"@);
    lemma_first_char_less("generation"@, "id"@);
    lemma_first_char_less("name"@, "slug"@);
    let ref_members = entity_ref_view(e)->Object_0;
    assert forall|i: int, j: int| 0 <= i < j < ref_members.len() implies text_less(
        #[trigger] ref_members[i].0,
        #[trigger] ref_members[j].0,
    ) by {}
    assert forall|i: int| 0 <= i < ref_members.len() implies sorted_keys(#[trigger] ref_members[i].1) by {}
    assert(sorted_keys(entity_ref_view(e)));
    lemma_three_keys(loaded_view(version, roots)->Object_0);
    let items = loaded_view(version, roots)->Object_0[1].1->Array_0;
    assert forall|i: int| 0 <= i < items.len() implies sorted_keys(#[trigger] items[i]) by {
        let r = roots[i];
        assert(items[i] == entity_ref_view(r));
        let m = entity_ref_view(r)->Object_0;
        assert forall|a: int, b: int| 0 <= a < b < m.len() implies text_less(#[trigger] m[a].0, #[trigger] m[b].0) by {}
        assert forall|a: int| 0 <= a < m.len() implies sorted_keys(#[trigger] m[a].1) by {}
    }
    assert(sorted_keys(loaded_view(version, roots)->Object_0[1].1));
    let lm = loaded_view(version, roots)->Object_0;
    assert forall|i: int| 0 <= i < lm.len() implies sorted_keys(#[trigger] lm[i].1) by {}
    assert(sorted_keys(loaded_view(version, roots)));
    let fm = failure_entry(tool, text)->Object_0;
    lemma_three_keys(fm);
    assert forall|a: int| 0 <= a < fm.len() implies sorted_keys(#[trigger] fm[a].1) by {}
    let sm = success_entry(tool, text)->Object_0;
    lemma_three_keys(sm);
    assert forall|a: int| 0 <= a < sm.len() implies sorted_keys(#[trigger] sm[a].1) by {}
    lemma_khronos_item_sorted(k);
    lemma_poly_item_sorted(p);
    let catalog = spec_asset_catalog(browsers)->Object_0;
    lemma_three_keys(catalog);
    assert forall|i: int| 0 <= i < catalog.len() implies sorted_keys(#[trigger] catalog[i].1) by {
        match catalog[i].1 {
            JsonView::Array(list) => {
                assert forall|j: int| 0 <= j < list.len() implies sorted_keys(#[trigger] list[j]) by {
                    if i == 1 {
                        match browsers.khronos {
                            crate::browsers::FetchState::Loaded(assets) => {
                                lemma_khronos_item_sorted(assets@[j]@);
                            },
                            _ => {},
                        }
                    } else {
                        let state = if i == 0 { browsers.hdris } else { browsers.models };
                        match state {
                            crate::browsers::FetchState::Loaded(assets) => {
                                lemma_poly_item_sorted(assets@[j]@);
                            },
                            _ => {},
                        }
                    }
                }
            },
            _ => {},
        }
    }
}


/// A drop that holds a model file loads the first one: on its own when it is
/// a GLB or nothing lies beside it, else with every other dropped file, in
/// order, as its resources. An HDR file beside it is not used.
pub proof fn law_model_file_wins_drop(files: Seq<(Seq<char>, Seq<u8>)>, i: int)
    requires
        0 <= i < files.len(),
        is_model_file(files[i]),
        forall|j: int| 0 <= j < i ==> !is_model_file(#[trigger] files[j]),
    ensures
        match spec_route_files(files) {
            DropRouteView::Model(bytes) => bytes == files[i].1 && (has_extension(files[i].0, ".glb"@)
                || files.len() == 1),
            DropRouteView::Bundle { gltf, resources } => {
                &&& gltf == files[i].1
                &&& !has_extension(files[i].0, ".glb"@)
                &&& files.len() > 1
                &&& resources.len() == files.len() - 1
                &&& forall|k: int| 0 <= k < resources.len() ==> #[trigger] resources[k].1 == files[if k < i {
                    k
                } else {
                    k + 1
                }].1
                &&& forall|k: int| 0 <= k < resources.len() ==> #[trigger] resources[k].0 == relative_to(
                    files[if k < i { k } else { k + 1 }].0,
                    directory_of(files[i].0),
                )
            },
            _ => false,
        },
{
    lemma_first_where_is(files, crate::drop::model_test(), i);
    let rest = files.remove(i);
    assert forall|k: int| 0 <= k < rest.len() implies #[trigger] rest[k] == files[if k < i { k } else { k + 1 }] by {}
}

/// A path's directory is the part of it up to and including its last `/`
/// (nothing when it has none), and a path read relative to its own directory
/// is what follows.
pub proof fn law_directory_and_relative(path: Seq<char>)
    ensures
        directory_of(path).len() <= path.len(),
        path.take(directory_of(path).len() as int) == directory_of(path),
        directory_of(path).len() == 0 || directory_of(path).last() == '/',
        forall|k: int| directory_of(path).len() <= k < path.len() ==> #[trigger] path[k] != '/',
        directory_of(path) + relative_to(path, directory_of(path)) == path,
    decreases path.len(),
{
    if path.len() > 0 && path.last() != '/' {
        law_directory_and_relative(path.drop_last());
        let d = directory_of(path.drop_last());
        assert(path.take(d.len() as int) =~= path.drop_last().take(d.len() as int));
        assert forall|k: int| d.len() <= k < path.len() implies #[trigger] path[k] != '/' by {
            if k < path.len() - 1 {
                assert(path[k] == path.drop_last()[k]);
            }
        }
    } else {
        assert(path.take(path.len() as int) =~= path);
    }
    let d = directory_of(path);
    assert(d + path.skip(d.len() as int) =~= path);
}

/// A drop without a model file loads its first HDR file as the environment.
pub proof fn law_hdr_only_without_model(files: Seq<(Seq<char>, Seq<u8>)>, i: int)
    requires
        forall|j: int| 0 <= j < files.len() ==> !is_model_file(#[trigger] files[j]),
        0 <= i < files.len(),
        is_hdr_file(files[i]),
        forall|j: int| 0 <= j < i ==> !is_hdr_file(#[trigger] files[j]),
    ensures
        spec_route_files(files) == DropRouteView::Hdri(files[i].1),
{
    lemma_first_where_none(files, crate::drop::model_test());
    lemma_first_where_is(files, crate::drop::hdr_test(), i);
}

/// A drop with neither a model file nor an HDR file loads nothing.
pub proof fn law_nothing_to_load(files: Seq<(Seq<char>, Seq<u8>)>)
    requires
        forall|j: int| 0 <= j < files.len() ==> !is_model_file(#[trigger] files[j]) && !is_hdr_file(files[j]),
    ensures
        spec_route_files(files) == DropRouteView::Ignored,
{
    lemma_first_where_none(files, crate::drop::model_test());
    lemma_first_where_none(files, crate::drop::hdr_test());
}

/// A tool call that acts on the scene is sent as the command of the same
/// kind, carrying the call's own entities, components and names unchanged; a
/// Polyhaven model without a resolution is asked for at the default one.
pub proof fn law_tool_calls_carry_their_arguments(call: ToolCall)
    ensures
        match call {
            ToolCall::Query(q) => spec_tool_step(call) matches ToolStep::Query { component_types }
                && component_types == q.component_types,
            ToolCall::GetComponents(g) => spec_tool_step(call) matches ToolStep::GetComponents { entity, component_types }
                && entity == g.entity && component_types == g.component_types,
            ToolCall::SpawnEntity(sp) => spec_tool_step(call) matches ToolStep::Command(
                AgentCommand::SpawnEntity { components },
            ) && components == sp.components,
            ToolCall::SetComponents(sc) => spec_tool_step(call) matches ToolStep::Command(
                AgentCommand::SetComponents { entity, components },
            ) && entity == sc.entity && components == sc.components,
            ToolCall::RemoveComponents(rc) => spec_tool_step(call) matches ToolStep::Command(
                AgentCommand::RemoveComponents { entity, component_types },
            ) && entity == rc.entity && component_types == rc.component_types,
            ToolCall::Reparent(rp) => spec_tool_step(call) matches ToolStep::Command(
                AgentCommand::Reparent { child, new_parent },
            ) && child == rp.child && new_parent == rp.new_parent,
            ToolCall::ClearScene => spec_tool_step(call) matches ToolStep::Command(AgentCommand::ClearScene),
            ToolCall::DeleteEntity(e) => spec_tool_step(call) matches ToolStep::Command(
                AgentCommand::DeleteEntity { entity },
            ) && entity == e.entity,
            ToolCall::SelectNode(e) => spec_tool_step(call) matches ToolStep::Command(
                AgentCommand::SelectNode { entity },
            ) && entity == e.entity,
            ToolCall::SetActiveCamera(e) => spec_tool_step(call) matches ToolStep::Command(
                AgentCommand::SetActiveCamera { entity },
            ) && entity == e.entity,
            ToolCall::LoadGltf(l) => spec_tool_step(call) matches ToolStep::SpawnCommand(
                AgentCommand::LoadGltf { uri },
            ) && uri == l.uri,
            ToolCall::LoadPolyhavenModel(l) => spec_tool_step(call) matches ToolStep::SpawnCommand(
                AgentCommand::LoadPolyhavenModel { slug, resolution },
            ) && slug == l.slug && resolution == (match l.resolution {
                Some(k) => k,
                None => DEFAULT_MODEL_RESOLUTION,
            }),
            ToolCall::AddPrimitive(a) => spec_tool_step(call) matches ToolStep::SpawnCommand(
                AgentCommand::AddPrimitive { kind, components },
            ) && kind == a.kind && components == a.components,
            ToolCall::AddLight(a) => spec_tool_step(call) matches ToolStep::SpawnCommand(
                AgentCommand::AddLight { kind, components },
            ) && kind == a.kind && components == a.components,
            ToolCall::Subscribe(f) => spec_tool_step(call) == ToolStep::Subscribe(f),
            ToolCall::PollDeltas(sid) => spec_tool_step(call) == ToolStep::PollDeltas(sid.subscription_id),
            ToolCall::Unsubscribe(sid) => spec_tool_step(call) == ToolStep::Unsubscribe(sid.subscription_id),
            ToolCall::ListComponentTypes => spec_tool_step(call) is ListComponentTypes,
            ToolCall::GetViewerState => spec_tool_step(call) is GetViewerState,
            ToolCall::ListMaterials => spec_tool_step(call) is ListMaterials,
            ToolCall::ListAssets => spec_tool_step(call) is ListAssets,
            ToolCall::Batch(b) => spec_tool_step(call) == ToolStep::Batch(b),
        },
{
}

/// How an index shows in the catalog: each asset as its name and slug, in
/// index order, or the state of its fetch.
pub open spec fn shows_polyhaven_index(shown: Option<JsonView>, state: FetchState<Vec<crate::browsers::PolyAsset>>) -> bool {
    match state {
        FetchState::Loaded(assets) => shown matches Some(JsonView::Array(items)) && items.len() == assets@.len()
            && forall|k: int| 0 <= k < items.len() ==> #[trigger] items[k] == JsonView::Object(
                seq![("name"@, JsonView::String(assets@[k]@.name)), ("slug"@, JsonView::String(assets@[k]@.slug))],
            ),
        FetchState::Idle => shown == Some(JsonView::String("idle (call refresh_browsers)"@)),
        FetchState::Loading => shown == Some(JsonView::String("loading"@)),
        FetchState::Failed => shown == Some(JsonView::String("failed"@)),
    }
}

/// A sample model as the catalog lists it: its download URL (null without
/// a binary variant), label and name.
pub open spec fn khronos_entry(a: KhronosAssetView) -> JsonView {
    JsonView::Object(
        seq![
            ("glb_url"@, match a.glb_url {
                Some(u) => JsonView::String(u),
                None => JsonView::Null,
            }),
            ("label"@, JsonView::String(a.label)),
            ("name"@, JsonView::String(a.name)),
        ],
    )
}

/// How the Khronos index shows in the catalog: each sample model as its
/// download URL (null without a binary variant), label and name, in index
/// order, or the state of its fetch.
pub open spec fn shows_khronos_index(shown: Option<JsonView>, state: FetchState<Vec<crate::browsers::KhronosAsset>>) -> bool {
    match state {
        FetchState::Loaded(assets) => shown matches Some(JsonView::Array(items)) && items.len() == assets@.len()
            && forall|k: int| 0 <= k < items.len() ==> #[trigger] items[k] == khronos_entry(assets@[k]@),
        FetchState::Idle => shown == Some(JsonView::String("idle (call refresh_browsers)"@)),
        FetchState::Loading => shown == Some(JsonView::String("loading"@)),
        FetchState::Failed => shown == Some(JsonView::String("failed"@)),
    }
}

/// The catalog's `hdris` member lists the HDRI browser's index and its
/// `models` member the Polyhaven model browser's; `khronos` is the Khronos
/// index, an array with one entry per sample model once it is loaded.
pub proof fn law_catalog_members_follow_browsers(browsers: Browsers)
    ensures
        shows_polyhaven_index(spec_get_key(spec_asset_catalog(browsers), "hdris"@), browsers.hdris),
        shows_polyhaven_index(spec_get_key(spec_asset_catalog(browsers), "models"@), browsers.models),
        shows_khronos_index(spec_get_key(spec_asset_catalog(browsers), "khronos"@), browsers.khronos),
{
    reveal_strlit("hdris");
    reveal_strlit("khronos");
    reveal_strlit("models");
    let members = spec_asset_catalog(browsers)->Object_0;
    assert(members[0].0 == "hdris"@);
    assert(members[1].0 == "khronos"@);
    assert(members[2].0 == "models"@);
    assert("hdris"@ != "khronos"@ && "hdris"@ != "models"@ && "khronos"@ != "models"@) by {
        assert("hdris"@[0] != "khronos"@[0]);
        assert("hdris"@[0] != "models"@[0]);
        assert("khronos"@[0] != "models"@[0]);
    }
    lemma_first_where_is(members, keyed_member("hdris"@), 0);
    lemma_first_where_is(members, keyed_member("khronos"@), 1);
    lemma_first_where_is(members, keyed_member("models"@), 2);
    match browsers.khronos {
        FetchState::Loaded(assets) => {
            let items = Seq::new(assets@.len(), |k: int| khronos_item(assets@[k]@));
            assert(members[1].1 == JsonView::Array(items));
            assert forall|k: int| 0 <= k < items.len() implies #[trigger] items[k] == khronos_entry(assets@[k]@) by {
                let a = assets@[k]@;
                assert(khronos_item(a)->Object_0 =~= khronos_entry(a)->Object_0);
            }
        },
        _ => {},
    }
}

/// The registry's write policies: only `parent` is owned (by `reparent`) and
/// only `bounding_volume` is derived; every other component is freely
/// writable, each at its own mask bit.
pub proof fn law_registry_write_policies(m: ComponentMasks)
    ensures
        forall|i: int| 0 <= i < spec_registry(m).len() ==> ((#[trigger] spec_registry(m)[i]).policy is Derived
            <==> spec_registry(m)[i].name == "bounding_volume"@),
        forall|i: int| 0 <= i < spec_registry(m).len() ==> ((#[trigger] spec_registry(m)[i]).policy is Owned
            <==> spec_registry(m)[i].name == "parent"@),
        spec_writable(spec_registry(m), "local_transform"@) == Ok::<u64, Seq<char>>(m.local_transform),
        spec_writable(spec_registry(m), "name"@) == Ok::<u64, Seq<char>>(m.name),
        spec_writable(spec_registry(m), "visibility"@) == Ok::<u64, Seq<char>>(m.visibility),
        spec_writable(spec_registry(m), "camera"@) == Ok::<u64, Seq<char>>(m.camera),
        spec_writable(spec_registry(m), "light"@) == Ok::<u64, Seq<char>>(m.light),
        spec_writable(spec_registry(m), "material_ref"@) == Ok::<u64, Seq<char>>(m.material_ref),
        spec_writable(spec_registry(m), "casts_shadow"@) == Ok::<u64, Seq<char>>(m.casts_shadow),
        spec_writable(spec_registry(m), "render_layer"@) == Ok::<u64, Seq<char>>(m.render_layer),
        spec_registry(m).len() == 10,
        crate::registry::spec_find(spec_registry(m), "parent"@) matches Some(i) && spec_registry(m)[i].mask == m.parent,
        crate::registry::spec_find(spec_registry(m), "bounding_volume"@) matches Some(i) && spec_registry(m)[i].mask
            == m.bounding_volume,
        spec_writable(spec_registry(m), "parent"@) == Err::<u64, Seq<char>>(
            "parent"@ + " is owned by the "@ + "reparent"@ + " command"@,
        ),
        spec_writable(spec_registry(m), "bounding_volume"@) == Err::<u64, Seq<char>>(
            "bounding_volume"@ + " is derived and cannot be written"@,
        ),
{
    reveal_strlit("local_transform");
    reveal_strlit("parent");
    reveal_strlit("name");
    reveal_strlit("visibility");
    reveal_strlit("camera");
    reveal_strlit("light");
    reveal_strlit("material_ref");
    reveal_strlit("bounding_volume");
    reveal_strlit("casts_shadow");
    reveal_strlit("render_layer");
    let reg = spec_registry(m);
    let names = seq![
        "local_transform"@, "parent"@, "name"@, "visibility"@, "camera"@, "light"@, "material_ref"@,
        "bounding_volume"@, "casts_shadow"@, "render_layer"@,
    ];
    assert forall|i: int| 0 <= i < 10 implies #[trigger] reg[i].name == names[i] by {}
    assert forall|i: int, j: int| 0 <= i < 10 && 0 <= j < 10 && i != j implies #[trigger] names[i] != #[trigger] names[j] by {
        assert(names[i].len() != names[j].len() || names[i][0] != names[j][0] || names[i][1] != names[j][1]
            || names[i][2] != names[j][2]);
    }
    assert forall|k: int| 0 <= k < 10 implies crate::registry::spec_find(reg, #[trigger] names[k]) == Some(k) by {
        assert forall|j: int| 0 <= j < k implies !(crate::registry::named(names[k]))(#[trigger] reg[j]) by {
            assert(names[j] != names[k]);
        }
        lemma_first_where_is(reg, crate::registry::named(names[k]), k);
    }
    assert(crate::registry::spec_find(reg, names[0]) == Some(0int));
    assert(crate::registry::spec_find(reg, names[1]) == Some(1int));
    assert(crate::registry::spec_find(reg, names[2]) == Some(2int));
    assert(crate::registry::spec_find(reg, names[3]) == Some(3int));
    assert(crate::registry::spec_find(reg, names[4]) == Some(4int));
    assert(crate::registry::spec_find(reg, names[5]) == Some(5int));
    assert(crate::registry::spec_find(reg, names[6]) == Some(6int));
    assert(crate::registry::spec_find(reg, names[7]) == Some(7int));
    assert(crate::registry::spec_find(reg, names[8]) == Some(8int));
    assert(crate::registry::spec_find(reg, names[9]) == Some(9int));
}

/// An atmosphere's lowercase name, as the tool lists it without capitals.
pub open spec fn atmosphere_name(a: Atmosphere) -> Seq<char> {
    match a {
        Atmosphere::Off => "none"@,
        Atmosphere::Sky => "sky"@,
        Atmosphere::CloudySky => "cloudysky"@,
        Atmosphere::Space => "space"@,
        Atmosphere::Nebula => "nebula"@,
        Atmosphere::Sunset => "sunset"@,
        Atmosphere::DayNight => "daynight"@,
        Atmosphere::Hdr => "hdr"@,
    }
}

/// Every atmosphere's own name reads back as that atmosphere (so no two
/// atmospheres share a name), and a name reads as an atmosphere only when it
/// is that atmosphere's name or `cloudy`, short for the cloudy sky.
pub proof fn law_atmosphere_names_read_back(a: Atmosphere, key: Seq<char>)
    ensures
        atmosphere_of_key(without_chars(atmosphere_name(a), seq!['_', ' ', '-'])) == Some(a),
        atmosphere_of_key(key) == Some(a) ==> key == atmosphere_name(a) || (a == Atmosphere::CloudySky
            && key == "cloudy"@),
{
    reveal_strlit("none");
    reveal_strlit("sky");
    reveal_strlit("cloudysky");
    reveal_strlit("cloudy");
    reveal_strlit("space");
    reveal_strlit("nebula");
    reveal_strlit("sunset");
    reveal_strlit("daynight");
    reveal_strlit("hdr");
    let name = atmosphere_name(a);
    let drop = seq!['_', ' ', '-'];
    assert forall|i: int| 0 <= i < name.len() implies (|c: char| !drop.contains(c))(#[trigger] name[i]) by {
        assert('a' <= name[i] <= 'z');
        if drop.contains(name[i]) {
            let j = choose|j: int| 0 <= j < drop.len() && drop[j] == name[i];
            assert(drop[0] == '_' && drop[1] == ' ' && drop[2] == '-');
        }
    }
    let keep = |c: char| !drop.contains(c);
    lemma_filter_all(name, keep);
    assert(without_chars(name, drop) == name.filter(keep));
    assert(without_chars(name, drop) == name);
    assert("none"@.len() == 4 && "sky"@.len() == 3 && "cloudysky"@.len() == 9 && "cloudy"@.len() == 6);
    assert("space"@.len() == 5 && "nebula"@.len() == 6 && "sunset"@.len() == 6 && "daynight"@.len() == 8);
    assert("hdr"@.len() == 3 && "sky"@[0] == 's' && "hdr"@[0] == 'h');
    assert("cloudy"@[0] == 'c' && "nebula"@[0] == 'n' && "sunset"@[0] == 's');
}


/// Unpacking an archive keeps exactly its files: every entry that opens, is
/// not a directory, and has a readable name and contents is among the files,
/// and every file is such an entry.
pub proof fn law_unpacked_files_are_the_archive_files(bytes: Seq<u8>, n: int)
    ensures
        forall|f: (Seq<char>, Seq<u8>)| #[trigger] unpacked_files(bytes, n).contains(f) ==> exists|k: int|
            0 <= k < n && #[trigger] archive_entry(bytes, k as usize) == Some((false, Some(f.0), Some(f.1))),
        forall|k: int| 0 <= k < n ==> (#[trigger] archive_entry(bytes, k as usize) matches Some((false, Some(name), Some(data))) ==> unpacked_files(bytes, n).contains((name, data))),
    decreases n,
{
    if n > 0 {
        law_unpacked_files_are_the_archive_files(bytes, n - 1);
        let before = unpacked_files(bytes, n - 1);
        let result = unpacked_files(bytes, n);
        assert forall|f: (Seq<char>, Seq<u8>)| #[trigger] result.contains(f) implies exists|k: int|
            0 <= k < n && #[trigger] archive_entry(bytes, k as usize) == Some((false, Some(f.0), Some(f.1))) by {
            if before.contains(f) {
                let k = choose|k: int| 0 <= k < n - 1 && #[trigger] archive_entry(bytes, k as usize) == Some((false, Some(f.0), Some(f.1)));
                assert(0 <= k < n);
            } else {
                let j = choose|j: int| 0 <= j < result.len() && result[j] == f;
                assert(j == before.len());
                assert(archive_entry(bytes, (n - 1) as usize) == Some((false, Some(f.0), Some(f.1))));
            }
        }
        assert forall|k: int| 0 <= k < n implies (#[trigger] archive_entry(bytes, k as usize) matches Some((false, Some(name), Some(data))) ==> result.contains((name, data))) by {
            match archive_entry(bytes, k as usize) {
                Some((false, Some(name), Some(data))) => {
                    if k < n - 1 {
                        assert(before.contains((name, data)));
                        let j = choose|j: int| 0 <= j < before.len() && before[j] == (name, data);
                        assert(result[j] == before[j]);
                    } else {
                        assert(result[result.len() - 1] == (name, data));
                    }
                },
                _ => {},
            }
        }
    }
}

} // verus!
