//! The agent host's relay logic: request correlation, the ring buffer of
//! delta batches, per-subscription cursors, and the references a batch of
//! tool calls may make to earlier results.
use std::collections::HashMap;
use vstd::prelude::*;
use vstd::string::StringExecFns;

use crate::json::{JsonValue, JsonView, get_index, get_key, lemma_array_view, lemma_object_view,
    items_view, pairs_view, spec_get_index, spec_get_key, text};
use crate::protocol::{
    AgentResponse, EntityRef, Snapshot, CorrelationId, Delta, DeltaBatch, DeltaBatchView, DeltaView, SubscriptionFilter,
    SubscriptionId, Version, batches_view, deltas_view, names_view, spec_response_correlation,
    response_correlation,
};
use crate::seqs::{first_where, lemma_first_where_is, lemma_first_where_none};
use crate::text::{decimal, parse_bounded, push_decimal, spec_parse_bounded, split, split_on};

verus! {

broadcast use vstd::std_specs::hash::group_hash_axioms;

/// How many batches the host keeps for polling subscribers.
pub const RING_CAPACITY: usize = 4096;

/// A subscriber's filter and the version it has seen up to.
#[derive(Debug)]
pub struct Subscription {
    pub filter: SubscriptionFilter,
    pub cursor: Version,
}

/// The relay's shared state.
#[derive(Debug)]
pub struct HostState {
    /// The correlation id the next request gets.
    pub next_correlation: CorrelationId,
    /// The most recent batches, oldest first.
    pub ring: Vec<DeltaBatch>,
    /// Live subscriptions by id.
    pub subscriptions: HashMap<SubscriptionId, Subscription>,
}

/// Where a response from the page goes.
#[derive(Debug)]
pub enum Route {
    /// A batch, kept in the ring for polling.
    Buffered,
    /// Progress of a long command; the request keeps waiting.
    Progress,
    /// The terminal reply to the request with this correlation id.
    Reply { correlation_id: CorrelationId, response: AgentResponse },
    /// A response no request waits for.
    Unrouted,
}

/// The ring after appending a batch: the newest batches, at most
/// [`RING_CAPACITY`] of them.
pub open spec fn ring_after(ring: Seq<DeltaBatch>, batch: DeltaBatch) -> Seq<DeltaBatch> {
    let all = ring.push(batch);
    if all.len() > RING_CAPACITY {
        all.skip(all.len() - RING_CAPACITY)
    } else {
        all
    }
}

/// The correlation id handed out after this one.
pub open spec fn next_correlation_id(id: CorrelationId) -> CorrelationId {
    if id == u64::MAX {
        0
    } else {
        (id + 1) as CorrelationId
    }
}

/// The correlation id handed out `k` calls after `start`.
pub open spec fn correlation_after(start: CorrelationId, k: nat) -> CorrelationId
    decreases k,
{
    if k == 0 {
        start
    } else {
        next_correlation_id(correlation_after(start, (k - 1) as nat))
    }
}

impl HostState {
    /// A fresh relay: correlation ids from one, nothing buffered.
    pub fn new() -> (r: HostState)
        ensures
            r.next_correlation == 1,
            r.ring@.len() == 0,
            r.subscriptions@ == Map::<SubscriptionId, Subscription>::empty(),
    {
        HostState { next_correlation: 1, ring: Vec::new(), subscriptions: HashMap::new() }
    }

    /// Hands out a correlation id; ids are consecutive and wrap around.
    pub fn correlation(&mut self) -> (r: CorrelationId)
        ensures
            r == old(self).next_correlation,
            final(self).next_correlation == next_correlation_id(old(self).next_correlation),
            final(self).ring@ == old(self).ring@,
            final(self).subscriptions@ == old(self).subscriptions@,
    {
        let id = self.next_correlation;
        self.next_correlation = if id == u64::MAX {
            0
        } else {
            id + 1
        };
        id
    }

    /// Routes a response from the page: batches go to the ring, progress
    /// reports are dropped, other answers go back to the waiting request.
    pub fn route_response(&mut self, response: AgentResponse) -> (r: Route)
        ensures
            final(self).next_correlation == old(self).next_correlation,
            final(self).subscriptions@ == old(self).subscriptions@,
            match response {
                AgentResponse::Batch { batch } => r is Buffered && final(self).ring@ == ring_after(
                    old(self).ring@,
                    batch,
                ),
                AgentResponse::CommandProgress { .. } => r is Progress && final(self).ring@
                    == old(self).ring@,
                _ => final(self).ring@ == old(self).ring@ && match spec_response_correlation(response) {
                    Some(id) => r == (Route::Reply { correlation_id: id, response }),
                    None => r is Unrouted,
                },
            },
    {
        match response {
            AgentResponse::Batch { batch } => {
                self.ring.push(batch);
                let ghost all = self.ring@;
                let overflow = if self.ring.len() > RING_CAPACITY {
                    self.ring.len() - RING_CAPACITY
                } else {
                    0
                };
                let mut removed: usize = 0;
                while removed < overflow
                    invariant
                        removed <= overflow,
                        overflow <= all.len(),
                        self.ring@ == all.skip(removed as int),
                        self.next_correlation == old(self).next_correlation,
                        self.subscriptions@ == old(self).subscriptions@,
                    decreases overflow - removed,
                {
                    self.ring.remove(0);
                    assert(self.ring@ =~= all.skip(removed + 1));
                    removed += 1;
                }
                assert(self.ring@ =~= ring_after(old(self).ring@, batch));
                Route::Buffered
            },
            AgentResponse::CommandProgress { .. } => Route::Progress,
            other => match response_correlation(&other) {
                Some(correlation_id) => Route::Reply { correlation_id, response: other },
                None => Route::Unrouted,
            },
        }
    }
}


/// Whether a filter's component list admits a component: an empty list
/// admits every component.
pub open spec fn wants(names: Seq<Seq<char>>, component: Seq<char>) -> bool {
    names.len() == 0 || names.contains(component)
}

/// The deltas a filter keeps: entity lifecycle deltas always, component deltas
/// when the filter wants their component.
pub open spec fn keeps(names: Seq<Seq<char>>) -> spec_fn(DeltaView) -> bool {
    |d: DeltaView|
        match d.component_name() {
            Some(c) => wants(names, c),
            None => true,
        }
}

/// A batch narrowed to a filter's components; versions and checksum stay.
pub open spec fn spec_filter_batch(batch: DeltaBatchView, names: Seq<Seq<char>>) -> DeltaBatchView {
    DeltaBatchView {
        base_version: batch.base_version,
        target_version: batch.target_version,
        deltas: batch.deltas.filter(keeps(names)),
        checksum: batch.checksum,
    }
}

/// Whether a filter's component list admits a component.
fn filter_wants(filter: &SubscriptionFilter, component: &String) -> (r: bool)
    ensures
        r == wants(names_view(filter.component_types@), component@),
{
    let ghost names = names_view(filter.component_types@);
    if filter.component_types.len() == 0 {
        return true;
    }
    let mut i: usize = 0;
    while i < filter.component_types.len()
        invariant
            i <= filter.component_types@.len(),
            names == names_view(filter.component_types@),
            forall|k: int| 0 <= k < i ==> names[k] != component@,
        decreases filter.component_types@.len() - i,
    {
        if filter.component_types[i] == *component {
            assert(names[i as int] == component@);
            return true;
        }
        i += 1;
    }
    assert(!names.contains(component@));
    false
}

/// Narrows a batch to the components a subscription filter names.
pub fn filter_batch(batch: &DeltaBatch, filter: &SubscriptionFilter) -> (r: DeltaBatch)
    ensures
        r@ == spec_filter_batch(batch@, names_view(filter.component_types@)),
{
    let ghost names = names_view(filter.component_types@);
    let ghost all = deltas_view(batch.deltas@);
    let mut deltas: Vec<Delta> = Vec::new();
    let mut i: usize = 0;
    while i < batch.deltas.len()
        invariant
            i <= batch.deltas@.len(),
            all == deltas_view(batch.deltas@),
            names == names_view(filter.component_types@),
            deltas_view(deltas@) == all.take(i as int).filter(keeps(names)),
        decreases batch.deltas@.len() - i,
    {
        proof {
            reveal_with_fuel(Seq::<_>::filter, 1);
            assert(all.take(i + 1).drop_last() =~= all.take(i as int));
        }
        let delta = &batch.deltas[i];
        let keep = match delta {
            Delta::Changed { component, .. } => filter_wants(filter, component),
            Delta::Added { component, .. } => filter_wants(filter, component),
            Delta::Removed { component, .. } => filter_wants(filter, component),
            Delta::Spawned { .. } => true,
            Delta::Despawned { .. } => true,
        };
        assert(keep == keeps(names)(all[i as int]));
        if keep {
            let ghost before = deltas_view(deltas@);
            deltas.push(delta.duplicate());
            assert(deltas_view(deltas@) =~= before.push(all[i as int]));
        }
        i += 1;
    }
    assert(all.take(batch.deltas@.len() as int) =~= all);
    let r = DeltaBatch {
        base_version: batch.base_version,
        target_version: batch.target_version,
        deltas,
        checksum: batch.checksum,
    };
    assert(r@.deltas == spec_filter_batch(batch@, names).deltas);
    r
}


/// The outcome of a poll.
#[derive(Debug)]
pub enum PollOutcome {
    /// The cursor is older than the oldest buffered batch: re-subscribe.
    ResyncRequired,
    /// The batches past the cursor, filtered, and the version now reached.
    Delivered { version: Version, batches: Vec<DeltaBatch> },
}

/// The message a poll of an unknown subscription fails with.
pub open spec fn unknown_subscription_message() -> Seq<char> {
    "unknown subscription_id"@
}

/// Whether a cursor has aged out of the ring: it is older than the base of
/// the oldest buffered batch.
pub open spec fn aged_out(ring: Seq<DeltaBatchView>, cursor: Version) -> bool {
    ring.len() > 0 && cursor < ring[0].base_version
}

/// Walks the ring oldest first from a cursor: every batch whose target lies
/// past the cursor is delivered, filtered, and moves the cursor to its target.
/// The cursor reached and the batches delivered.
pub open spec fn spec_poll(ring: Seq<DeltaBatchView>, cursor: Version, names: Seq<Seq<char>>) -> (Version, Seq<DeltaBatchView>)
    decreases ring.len(),
{
    if ring.len() == 0 {
        (cursor, seq![])
    } else {
        let (reached, delivered) = spec_poll(ring.drop_last(), cursor, names);
        let batch = ring.last();
        if batch.target_version <= reached {
            (reached, delivered)
        } else {
            (batch.target_version, delivered.push(spec_filter_batch(batch, names)))
        }
    }
}

impl HostState {
    /// The relay's invariant: the ring holds at most [`RING_CAPACITY`]
    /// batches.
    pub open spec fn well_formed(&self) -> bool {
        self.ring@.len() <= RING_CAPACITY
    }

    /// Records a subscription the page confirmed, replacing one with the same
    /// id.
    pub fn record_subscription(&mut self, id: SubscriptionId, filter: SubscriptionFilter, cursor: Version)
        requires
            old(self).well_formed(),
        ensures
            final(self).well_formed(),
            final(self).ring@ == old(self).ring@,
            final(self).next_correlation == old(self).next_correlation,
            final(self).subscriptions@ == old(self).subscriptions@.insert(id, Subscription { filter, cursor }),
    {
        self.subscriptions.insert(id, Subscription { filter, cursor });
    }

    /// Forgets a subscription; an unknown id changes nothing.
    pub fn forget_subscription(&mut self, id: SubscriptionId)
        requires
            old(self).well_formed(),
        ensures
            final(self).well_formed(),
            final(self).ring@ == old(self).ring@,
            final(self).next_correlation == old(self).next_correlation,
            final(self).subscriptions@ == old(self).subscriptions@.remove(id),
    {
        self.subscriptions.remove(&id);
    }

    /// Returns the batches a subscription has not seen, filtered to its
    /// components, and advances its cursor; asks for a re-subscribe when the
    /// cursor has aged out of the ring.
    pub fn poll_deltas(&mut self, subscription_id: SubscriptionId) -> (r: Result<PollOutcome, String>)
        requires
            old(self).well_formed(),
        ensures
            final(self).well_formed(),
            final(self).ring@ == old(self).ring@,
            final(self).next_correlation == old(self).next_correlation,
            if !old(self).subscriptions@.contains_key(subscription_id) {
                r is Err && r->Err_0@ == unknown_subscription_message()
                    && final(self).subscriptions@ == old(self).subscriptions@
            } else {
                let sub = old(self).subscriptions@[subscription_id];
                let ring = batches_view(old(self).ring@);
                if aged_out(ring, sub.cursor) {
                    r is Ok && r->Ok_0 is ResyncRequired && final(self).subscriptions@ == old(self).subscriptions@
                } else {
                    let (reached, delivered) = spec_poll(ring, sub.cursor, names_view(sub.filter.component_types@));
                    &&& r is Ok
                    &&& r->Ok_0 matches PollOutcome::Delivered { version, batches }
                        && version == reached && batches_view(batches@) == delivered
                    &&& final(self).subscriptions@ == old(self).subscriptions@.insert(
                        subscription_id,
                        Subscription { filter: sub.filter, cursor: reached },
                    )
                }
            },
    {
        let sub = match self.subscriptions.get(&subscription_id) {
            Some(s) => s,
            None => {
                return Err(String::from_str("unknown subscription_id"));
            },
        };
        let ghost ring = batches_view(self.ring@);
        let cursor = sub.cursor;
        if self.ring.len() > 0 && cursor < self.ring[0].base_version {
            assert(ring[0] == self.ring@[0]@);
            assert(aged_out(ring, cursor));
            return Ok(PollOutcome::ResyncRequired);
        }
        let ghost names = names_view(sub.filter.component_types@);
        let mut reached = cursor;
        let mut delivered: Vec<DeltaBatch> = Vec::new();
        let mut k: usize = 0;
        while k < self.ring.len()
            invariant
                k <= self.ring@.len(),
                ring == batches_view(self.ring@),
                names == names_view(sub.filter.component_types@),
                (reached, batches_view(delivered@)) == spec_poll(ring.take(k as int), cursor, names),
            decreases self.ring@.len() - k,
        {
            assert(ring.take(k + 1).drop_last() =~= ring.take(k as int));
            let batch = &self.ring[k];
            if batch.target_version > reached {
                let filtered = filter_batch(batch, &sub.filter);
                let ghost before = batches_view(delivered@);
                delivered.push(filtered);
                assert(batches_view(delivered@) =~= before.push(spec_filter_batch(ring[k as int], names)));
                reached = batch.target_version;
            }
            k += 1;
        }
        assert(ring.take(self.ring@.len() as int) =~= ring);
        if let Some(mut sub) = self.subscriptions.remove(&subscription_id) {
            sub.cursor = reached;
            self.subscriptions.insert(subscription_id, sub);
        }
        Ok(PollOutcome::Delivered { version: reached, batches: delivered })
    }
}


/// The message for a reference whose first segment is not an op index.
pub open spec fn bad_ref_message(path: Seq<char>) -> Seq<char> {
    "bad $ref '"@ + path + "'"@
}

/// The message for a reference to an op that has not run yet.
pub open spec fn not_run_message(path: Seq<char>, index: nat) -> Seq<char> {
    "$ref '"@ + path + "': op "@ + decimal(index) + " has not run"@
}

/// The message for an array index past the end.
pub open spec fn out_of_range_message(path: Seq<char>, index: nat) -> Seq<char> {
    "$ref '"@ + path + "': index "@ + decimal(index) + " out of range"@
}

/// The message for a missing object key.
pub open spec fn no_key_message(path: Seq<char>, key: Seq<char>) -> Seq<char> {
    "$ref '"@ + path + "': no key '"@ + key + "'"@
}

/// The largest index a reference segment may name.
pub open spec fn max_index() -> nat {
    usize::MAX as nat
}

/// One step down a reference path: a segment that reads as an index selects
/// an array item, any other segment an object member.
pub open spec fn step_ref(path: Seq<char>, current: JsonView, part: Seq<char>) -> Result<JsonView, Seq<char>> {
    match spec_parse_bounded(part, max_index()) {
        Some(index) => match spec_get_index(current, index as int) {
            Some(item) => Ok(item),
            None => Err(out_of_range_message(path, index)),
        },
        None => match spec_get_key(current, part) {
            Some(item) => Ok(item),
            None => Err(no_key_message(path, part)),
        },
    }
}

/// Follows the segments of a reference path from a value, stopping at the
/// first segment that does not resolve.
pub open spec fn walk_ref(path: Seq<char>, start: JsonView, parts: Seq<Seq<char>>) -> Result<JsonView, Seq<char>>
    decreases parts.len(),
{
    if parts.len() == 0 {
        Ok(start)
    } else {
        match walk_ref(path, start, parts.drop_last()) {
            Ok(current) => step_ref(path, current, parts.last()),
            Err(e) => Err(e),
        }
    }
}

/// Once a prefix of the segments fails, the whole walk fails the same way.
proof fn lemma_walk_ref_failure(path: Seq<char>, start: JsonView, parts: Seq<Seq<char>>, k: int)
    requires
        0 <= k <= parts.len(),
        walk_ref(path, start, parts.take(k)) is Err,
    ensures
        walk_ref(path, start, parts) == walk_ref(path, start, parts.take(k)),
    decreases parts.len(),
{
    if k == parts.len() {
        assert(parts.take(k) =~= parts);
    } else {
        assert(parts.drop_last().take(k) =~= parts.take(k));
        lemma_walk_ref_failure(path, start, parts.drop_last(), k);
    }
}

/// What a `"<index>.<path>"` reference names among the earlier results: the
/// first segment picks the op's result, the others walk into it.
pub open spec fn spec_lookup_ref(path: Seq<char>, results: Seq<JsonView>) -> Result<JsonView, Seq<char>> {
    let parts = split_on(path, '.');
    match spec_parse_bounded(parts[0], max_index()) {
        None => Err(bad_ref_message(path)),
        Some(index) => if index < results.len() {
            walk_ref(path, results[index as int], parts.skip(1))
        } else {
            Err(not_run_message(path, index))
        },
    }
}

/// The text `$ref '<path>'` followed by `tail`.
fn ref_message_start(path: &str, tail: &str) -> (r: String)
    ensures
        r@ == "$ref '"@ + path@ + tail@,
{
    let mut m = String::from_str("$ref '");
    m.append(path);
    m.append(tail);
    m
}

/// Resolves a `"<index>.<path>"` reference against the results of the ops
/// that ran before.
pub fn lookup_ref(path: &str, results: &[JsonValue]) -> (r: Result<JsonValue, String>)
    ensures
        match spec_lookup_ref(path@, items_view(results@)) {
            Ok(v) => r is Ok && r->Ok_0@ == v,
            Err(e) => r is Err && r->Err_0@ == e,
        },
{
    let ghost all = items_view(results@);
    let parts = split(path, '.');
    let ghost pv = split_on(path@, '.');
    let parsed = parse_bounded(parts[0].as_str(), usize::MAX as u64);
    let index = match parsed {
        Some(index) => index as usize,
        None => {
            let mut m = String::from_str("bad $ref '");
            m.append(path);
            m.append("'");
            return Err(m);
        },
    };
    if index >= results.len() {
        let mut m = ref_message_start(path, "': op ");
        push_decimal(&mut m, index as u64);
        m.append(" has not run");
        return Err(m);
    }
    let mut current: &JsonValue = &results[index];
    let mut k: usize = 1;
    while k < parts.len()
        invariant
            1 <= k <= parts@.len(),
            parts@.len() == pv.len(),
            pv == split_on(path@, '.'),
            forall|j: int| 0 <= j < parts@.len() ==> #[trigger] parts@[j]@ == pv[j],
            all == items_view(results@),
            index < results@.len(),
            spec_parse_bounded(pv[0], max_index()) == Some(index as nat),
            walk_ref(path@, all[index as int], pv.subrange(1, k as int)) == Ok::<JsonView, Seq<char>>(current@),
        decreases parts@.len() - k,
    {
        let ghost so_far = pv.subrange(1, k as int);
        assert(pv.subrange(1, k + 1).drop_last() =~= so_far);
        assert(pv.subrange(1, k + 1).last() == parts@[k as int]@);
        let part = parts[k].as_str();
        assert(pv.skip(1).take(k as int) =~= pv.subrange(1, k + 1));
        match parse_bounded(part, usize::MAX as u64) {
            Some(array_index) => match get_index(current, array_index as usize) {
                Some(item) => {
                    current = item;
                },
                None => {
                    let mut m = ref_message_start(path, "': index ");
                    push_decimal(&mut m, array_index);
                    m.append(" out of range");
                    proof {
                        lemma_walk_ref_failure(path@, all[index as int], pv.skip(1), k as int);
                    }
                    return Err(m);
                },
            },
            None => {
                let key = String::from_str(part);
                match get_key(current, &key) {
                    Some(item) => {
                        current = item;
                    },
                    None => {
                        let mut m = ref_message_start(path, "': no key '");
                        m.append(part);
                        m.append("'");
                        proof {
                            lemma_walk_ref_failure(path@, all[index as int], pv.skip(1), k as int);
                        }
                        return Err(m);
                    },
                }
            },
        }
        k += 1;
    }
    assert(pv.subrange(1, parts@.len() as int) =~= pv.skip(1));
    Ok(current.duplicate())
}


/// The predicate "this resolution failed".
pub open spec fn failed() -> spec_fn(Result<JsonView, Seq<char>>) -> bool {
    |r: Result<JsonView, Seq<char>>| r is Err
}

/// Whether a value is a `{"$ref": "<path>"}` placeholder: an object with
/// exactly one member, named `$ref`, whose value is a string.
pub open spec fn is_placeholder(members: Seq<(Seq<char>, JsonView)>) -> bool {
    members.len() == 1 && members[0].0 == "$ref"@ && members[0].1 is String
}

/// Each member value of an object, resolved.
pub open spec fn resolve_members(members: Seq<(Seq<char>, JsonView)>, results: Seq<JsonView>) -> Seq<Result<JsonView, Seq<char>>>
    decreases members,
{
    Seq::new(
        members.len(),
        |i: int|
            if 0 <= i < members.len() {
                spec_resolve_refs(members[i].1, results)
            } else {
                Ok(JsonView::Null)
            },
    )
}

/// Each item of an array, resolved.
pub open spec fn resolve_items(items: Seq<JsonView>, results: Seq<JsonView>) -> Seq<Result<JsonView, Seq<char>>>
    decreases items,
{
    Seq::new(
        items.len(),
        |i: int|
            if 0 <= i < items.len() {
                spec_resolve_refs(items[i], results)
            } else {
                Ok(JsonView::Null)
            },
    )
}

/// A value with every placeholder replaced by what its reference names; the
/// first failing reference, in document order, fails the whole value.
pub open spec fn spec_resolve_refs(v: JsonView, results: Seq<JsonView>) -> Result<JsonView, Seq<char>>
    decreases v,
{
    match v {
        JsonView::Object(members) => if is_placeholder(members) {
            spec_lookup_ref(members[0].1->String_0, results)
        } else {
            let resolved = resolve_members(members, results);
            match first_where(resolved, failed()) {
                Some(i) => Err(resolved[i]->Err_0),
                None => Ok(
                    JsonView::Object(Seq::new(members.len(), |i: int| (members[i].0, resolved[i]->Ok_0))),
                ),
            }
        },
        JsonView::Array(items) => {
            let resolved = resolve_items(items, results);
            match first_where(resolved, failed()) {
                Some(i) => Err(resolved[i]->Err_0),
                None => Ok(JsonView::Array(Seq::new(items.len(), |i: int| resolved[i]->Ok_0))),
            }
        },
        _ => Ok(v),
    }
}

/// Replaces every `{"$ref": "<index>.<path>"}` placeholder in a value with the
/// part of an earlier op's result that it names.
#[verifier::loop_isolation(false)]
pub fn resolve_refs(value: &JsonValue, results: &[JsonValue]) -> (r: Result<JsonValue, String>)
    ensures
        match spec_resolve_refs(value@, items_view(results@)) {
            Ok(v) => r is Ok && r->Ok_0@ == v,
            Err(e) => r is Err && r->Err_0@ == e,
        },
    decreases value,
{
    let ghost rv = items_view(results@);
    match value {
        JsonValue::Object(members) => {
            proof {
                lemma_object_view(value);
            }
            let ghost mv = pairs_view(members@);
            let key = String::from_str("$ref");
            if members.len() == 1 && members[0].0 == key {
                if let JsonValue::String(path) = &members[0].1 {
                    return lookup_ref(path.as_str(), results);
                }
            }
            assert(!is_placeholder(mv));
            let ghost resolved = resolve_members(mv, rv);
            let mut out: Vec<(String, JsonValue)> = Vec::new();
            let mut i: usize = 0;
            while i < members.len()
                invariant
                    i <= members@.len(),
                    out@.len() == i,
                    forall|k: int| 0 <= k < i ==> !(failed())(#[trigger] resolved[k]),
                    forall|k: int|
                        0 <= k < i ==> #[trigger] out@[k].0@ == mv[k].0 && out@[k].1@
                            == resolved[k]->Ok_0,
                decreases members@.len() - i,
            {
                match resolve_refs(&members[i].1, results) {
                    Ok(v) => {
                        out.push((members[i].0.clone(), v));
                    },
                    Err(e) => {
                        proof {
                            lemma_first_where_is(resolved, failed(), i as int);
                        }
                        return Err(e);
                    },
                }
                i += 1;
            }
            proof {
                lemma_first_where_none(resolved, failed());
            }
            let r = JsonValue::Object(out);
            proof {
                lemma_object_view(&r);
                assert(pairs_view(out@) =~= Seq::new(mv.len(), |k: int| (mv[k].0, resolved[k]->Ok_0)));
            }
            Ok(r)
        },
        JsonValue::Array(items) => {
            proof {
                lemma_array_view(value);
            }
            let ghost iv = items_view(items@);
            let ghost resolved = resolve_items(iv, rv);
            let mut out: Vec<JsonValue> = Vec::new();
            let mut i: usize = 0;
            while i < items.len()
                invariant
                    i <= items@.len(),
                    out@.len() == i,
                    forall|k: int| 0 <= k < i ==> !(failed())(#[trigger] resolved[k]),
                    forall|k: int| 0 <= k < i ==> #[trigger] out@[k]@ == resolved[k]->Ok_0,
                decreases items@.len() - i,
            {
                match resolve_refs(&items[i], results) {
                    Ok(v) => {
                        out.push(v);
                    },
                    Err(e) => {
                        proof {
                            lemma_first_where_is(resolved, failed(), i as int);
                        }
                        return Err(e);
                    },
                }
                i += 1;
            }
            proof {
                lemma_first_where_none(resolved, failed());
            }
            let r = JsonValue::Array(out);
            proof {
                lemma_array_view(&r);
                assert(items_view(out@) =~= Seq::new(iv.len(), |k: int| resolved[k]->Ok_0));
            }
            Ok(r)
        },
        _ => Ok(value.duplicate()),
    }
}


/// The report entry of an op that failed.
pub open spec fn failure_entry(tool: Seq<char>, error: Seq<char>) -> JsonView {
    JsonView::Object(
        seq![
            ("error"@, JsonView::String(error)),
            ("ok"@, JsonView::Bool(false)),
            ("tool"@, JsonView::String(tool)),
        ],
    )
}

/// The report entry of an op that succeeded with a result text.
pub open spec fn success_entry(tool: Seq<char>, result: Seq<char>) -> JsonView {
    JsonView::Object(
        seq![
            ("ok"@, JsonView::Bool(true)),
            ("result"@, JsonView::String(result)),
            ("tool"@, JsonView::String(tool)),
        ],
    )
}

/// An op's arguments: a missing (null) argument object reads as `{}`.
pub open spec fn op_arguments(arguments: JsonView) -> JsonView {
    if arguments is Null {
        JsonView::Object(seq![])
    } else {
        arguments
    }
}

/// The message a nested batch op fails with.
pub open spec fn nested_batch_message() -> Seq<char> {
    "nested batch is not allowed"@
}

/// The bookkeeping of a batch of tool calls run in order: every op leaves a
/// result that later ops may reference (null when it failed) and an entry in
/// the report.
#[derive(Debug)]
pub struct BatchRun {
    pub refs: Vec<JsonValue>,
    pub report: Vec<JsonValue>,
}

/// A report entry for a failed op.
fn failure_value(tool: &String, error: String) -> (r: JsonValue)
    ensures
        r@ == failure_entry(tool@, error@),
{
    let mut members: Vec<(String, JsonValue)> = Vec::new();
    members.push((String::from_str("error"), JsonValue::String(error)));
    members.push((String::from_str("ok"), JsonValue::Bool(false)));
    members.push((String::from_str("tool"), JsonValue::String(tool.clone())));
    let r = JsonValue::Object(members);
    proof {
        lemma_object_view(&r);
        assert(pairs_view(members@) =~= failure_entry(tool@, error@)->Object_0);
    }
    r
}

/// A report entry for an op that succeeded.
fn success_value(tool: &String, result: String) -> (r: JsonValue)
    ensures
        r@ == success_entry(tool@, result@),
{
    let mut members: Vec<(String, JsonValue)> = Vec::new();
    members.push((String::from_str("ok"), JsonValue::Bool(true)));
    members.push((String::from_str("result"), JsonValue::String(result)));
    members.push((String::from_str("tool"), JsonValue::String(tool.clone())));
    let r = JsonValue::Object(members);
    proof {
        lemma_object_view(&r);
        assert(pairs_view(members@) =~= success_entry(tool@, result@)->Object_0);
    }
    r
}

impl BatchRun {
    /// A batch before its first op.
    pub fn new() -> (r: BatchRun)
        ensures
            r.refs@.len() == 0,
            r.report@.len() == 0,
    {
        BatchRun { refs: Vec::new(), report: Vec::new() }
    }

    /// Prepares the next op: refuses a nested batch, substitutes the
    /// references in its arguments, and returns the arguments to run it with.
    /// A refused op is recorded at once (a null result and a failure entry).
    pub fn prepare(&mut self, tool: &String, arguments: &JsonValue) -> (r: Option<JsonValue>)
        ensures
            if tool@ == "batch"@ {
                &&& r is None
                &&& items_view(final(self).refs@) == items_view(old(self).refs@).push(JsonView::Null)
                &&& items_view(final(self).report@) == items_view(old(self).report@).push(
                    failure_entry(tool@, nested_batch_message()),
                )
            } else {
                match spec_resolve_refs(op_arguments(arguments@), items_view(old(self).refs@)) {
                    Ok(v) => {
                        &&& r is Some && r->Some_0@ == v
                        &&& final(self).refs@ == old(self).refs@
                        &&& final(self).report@ == old(self).report@
                    },
                    Err(e) => {
                        &&& r is None
                        &&& items_view(final(self).refs@) == items_view(old(self).refs@).push(JsonView::Null)
                        &&& items_view(final(self).report@) == items_view(old(self).report@).push(
                            failure_entry(tool@, e),
                        )
                    },
                }
            },
    {
        let nested = String::from_str("batch");
        if *tool == nested {
            let ghost refs0 = items_view(self.refs@);
            let ghost report0 = items_view(self.report@);
            self.refs.push(JsonValue::Null);
            let entry = failure_value(tool, String::from_str("nested batch is not allowed"));
            self.report.push(entry);
            assert(items_view(self.refs@) =~= refs0.push(JsonView::Null));
            assert(items_view(self.report@) =~= report0.push(failure_entry(tool@, nested_batch_message())));
            return None;
        }
        let resolved = match arguments {
            JsonValue::Null => {
                let empty = JsonValue::Object(Vec::new());
                proof {
                    lemma_object_view(&empty);
                    assert(empty@->Object_0 =~= Seq::<(Seq<char>, JsonView)>::empty());
                    assert(empty@ == op_arguments(arguments@));
                }
                resolve_refs(&empty, self.refs.as_slice())
            },
            _ => resolve_refs(arguments, self.refs.as_slice()),
        };
        match resolved {
            Ok(v) => Some(v),
            Err(e) => {
                let ghost refs0 = items_view(self.refs@);
                let ghost report0 = items_view(self.report@);
                let ghost message = e@;
                self.refs.push(JsonValue::Null);
                let entry = failure_value(tool, e);
                self.report.push(entry);
                assert(items_view(self.refs@) =~= refs0.push(JsonView::Null));
                assert(items_view(self.report@) =~= report0.push(failure_entry(tool@, message)));
                None
            },
        }
    }

    /// Records how a prepared op ended. A success leaves its result text,
    /// read as JSON where `parsed` holds that reading, else as a string; a
    /// failure leaves null.
    pub fn record(&mut self, tool: &String, outcome: Result<String, String>, parsed: Option<JsonValue>)
        ensures
            match outcome {
                Ok(text) => {
                    &&& items_view(final(self).refs@) == items_view(old(self).refs@).push(
                        match parsed {
                            Some(v) => v@,
                            None => JsonView::String(text@),
                        },
                    )
                    &&& items_view(final(self).report@) == items_view(old(self).report@).push(
                        success_entry(tool@, text@),
                    )
                },
                Err(e) => {
                    &&& items_view(final(self).refs@) == items_view(old(self).refs@).push(JsonView::Null)
                    &&& items_view(final(self).report@) == items_view(old(self).report@).push(
                        failure_entry(tool@, e@),
                    )
                },
            },
    {
        let ghost refs0 = items_view(self.refs@);
        let ghost report0 = items_view(self.report@);
        match outcome {
            Ok(text) => {
                let ghost t = text@;
                let value = match parsed {
                    Some(v) => v,
                    None => JsonValue::String(text.clone()),
                };
                let ghost vv = value@;
                self.refs.push(value);
                let entry = success_value(tool, text);
                self.report.push(entry);
                assert(items_view(self.refs@) =~= refs0.push(vv));
                assert(items_view(self.report@) =~= report0.push(success_entry(tool@, t)));
            },
            Err(e) => {
                let ghost m = e@;
                self.refs.push(JsonValue::Null);
                let entry = failure_value(tool, e);
                self.report.push(entry);
                assert(items_view(self.refs@) =~= refs0.push(JsonView::Null));
                assert(items_view(self.report@) =~= report0.push(failure_entry(tool@, m)));
            },
        }
    }
}


/// What a tool call answers, before it is written out as text.
#[derive(Debug)]
pub enum ToolReply {
    /// A JSON value built by the relay.
    Value(JsonValue),
    /// The worker's response, written out as it stands.
    Payload(AgentResponse),
    /// A confirmed subscription: its id, the snapshot's version and the
    /// snapshot itself.
    Subscribed { subscription_id: SubscriptionId, version: Version, snapshot: Snapshot },
}

/// A JSON number with the given value.
pub open spec fn number_view(n: nat) -> JsonView {
    JsonView::Number(decimal(n))
}

/// Builds a JSON number.
fn number(n: u64) -> (r: JsonValue)
    ensures
        r@ == number_view(n as nat),
{
    let mut digits = String::new();
    push_decimal(&mut digits, n);
    assert(digits@ =~= decimal(n as nat));
    JsonValue::Number(digits)
}

/// An entity handle as JSON.
pub open spec fn entity_ref_view(e: EntityRef) -> JsonView {
    JsonView::Object(seq![("generation"@, number_view(e.generation as nat)), ("id"@, number_view(e.id as nat))])
}

/// Writes an entity handle as JSON.
fn entity_ref_value(e: EntityRef) -> (r: JsonValue)
    ensures
        r@ == entity_ref_view(e),
{
    let mut members: Vec<(String, JsonValue)> = Vec::new();
    members.push((String::from_str("generation"), number(e.generation as u64)));
    members.push((String::from_str("id"), number(e.id as u64)));
    let r = JsonValue::Object(members);
    proof {
        lemma_object_view(&r);
        assert(pairs_view(members@) =~= entity_ref_view(e)->Object_0);
    }
    r
}

/// The reply to a command that landed: `{"applied": true, "version": v}`.
pub open spec fn applied_view(version: Version) -> JsonView {
    JsonView::Object(seq![("applied"@, JsonView::Bool(true)), ("version"@, number_view(version as nat))])
}

/// The reply to an additive load: `{"applied": true, "roots": [...], "version": v}`.
pub open spec fn loaded_view(version: Version, roots: Seq<EntityRef>) -> JsonView {
    JsonView::Object(
        seq![
            ("applied"@, JsonView::Bool(true)),
            ("roots"@, JsonView::Array(Seq::new(roots.len(), |i: int| entity_ref_view(roots[i])))),
            ("version"@, number_view(version as nat)),
        ],
    )
}

/// Turns the terminal response to a command into the tool's reply: the
/// version it landed at, its error, or any other response as it stands.
pub fn applied_result(response: AgentResponse) -> (r: Result<ToolReply, String>)
    ensures
        match response {
            AgentResponse::CommandApplied { version, .. } => {
                &&& r is Ok
                &&& r->Ok_0 matches ToolReply::Value(v) && v@ == applied_view(version)
            },
            AgentResponse::CommandFailed { error, .. } => r == Err::<ToolReply, String>(error),
            other => r == Ok::<ToolReply, String>(ToolReply::Payload(other)),
        },
{
    match response {
        AgentResponse::CommandApplied { version, .. } => {
            let mut members: Vec<(String, JsonValue)> = Vec::new();
            members.push((String::from_str("applied"), JsonValue::Bool(true)));
            members.push((String::from_str("version"), number(version)));
            let v = JsonValue::Object(members);
            proof {
                lemma_object_view(&v);
                assert(pairs_view(members@) =~= applied_view(version)->Object_0);
            }
            Ok(ToolReply::Value(v))
        },
        AgentResponse::CommandFailed { error, .. } => Err(error),
        other => Ok(ToolReply::Payload(other)),
    }
}

/// Turns the terminal response to a spawning command into the tool's reply:
/// the version and the spawned roots, the error, or any other response as it
/// stands.
pub fn spawn_result(response: AgentResponse) -> (r: Result<ToolReply, String>)
    ensures
        match response {
            AgentResponse::Loaded { version, roots, .. } => {
                &&& r is Ok
                &&& r->Ok_0 matches ToolReply::Value(v) && v@ == loaded_view(version, roots@)
            },
            AgentResponse::CommandFailed { error, .. } => r == Err::<ToolReply, String>(error),
            other => r == Ok::<ToolReply, String>(ToolReply::Payload(other)),
        },
{
    match response {
        AgentResponse::Loaded { version, roots, .. } => {
            let mut items: Vec<JsonValue> = Vec::new();
            let mut i: usize = 0;
            while i < roots.len()
                invariant
                    i <= roots@.len(),
                    items@.len() == i,
                    forall|k: int| 0 <= k < i ==> #[trigger] items@[k]@ == entity_ref_view(roots@[k]),
                decreases roots@.len() - i,
            {
                items.push(entity_ref_value(roots[i]));
                i += 1;
            }
            let listed = JsonValue::Array(items);
            proof {
                lemma_array_view(&listed);
                assert(items_view(items@) =~= loaded_view(version, roots@)->Object_0[1].1->Array_0);
            }
            let mut members: Vec<(String, JsonValue)> = Vec::new();
            members.push((String::from_str("applied"), JsonValue::Bool(true)));
            members.push((String::from_str("roots"), listed));
            members.push((String::from_str("version"), number(version)));
            let v = JsonValue::Object(members);
            proof {
                lemma_object_view(&v);
                assert(pairs_view(members@) =~= loaded_view(version, roots@)->Object_0);
            }
            Ok(ToolReply::Value(v))
        },
        AgentResponse::CommandFailed { error, .. } => Err(error),
        other => Ok(ToolReply::Payload(other)),
    }
}

impl HostState {
    /// Handles the response to a subscribe request: a confirmed subscription
    /// is recorded with its cursor at the snapshot's version.
    pub fn subscribed_result(&mut self, filter: SubscriptionFilter, response: AgentResponse) -> (r: Result<ToolReply, String>)
        requires
            old(self).well_formed(),
        ensures
            final(self).well_formed(),
            final(self).ring@ == old(self).ring@,
            final(self).next_correlation == old(self).next_correlation,
            match response {
                AgentResponse::Subscribed { subscription_id, snapshot, .. } => {
                    &&& r is Ok
                    &&& r->Ok_0 matches ToolReply::Subscribed { subscription_id: id, version, snapshot: s }
                        && id == subscription_id && version == snapshot.version && s == snapshot
                    &&& final(self).subscriptions@ == old(self).subscriptions@.insert(
                        subscription_id,
                        Subscription { filter, cursor: snapshot.version },
                    )
                },
                AgentResponse::CommandFailed { error, .. } => r == Err::<ToolReply, String>(error)
                    && final(self).subscriptions@ == old(self).subscriptions@,
                other => r == Ok::<ToolReply, String>(ToolReply::Payload(other))
                    && final(self).subscriptions@ == old(self).subscriptions@,
            },
    {
        match response {
            AgentResponse::Subscribed { subscription_id, snapshot, .. } => {
                let version = snapshot.version;
                self.record_subscription(subscription_id, filter, version);
                Ok(ToolReply::Subscribed { subscription_id, version, snapshot })
            },
            AgentResponse::CommandFailed { error, .. } => Err(error),
            other => Ok(ToolReply::Payload(other)),
        }
    }
}

/// The JSON-RPC methods the relay answers.
#[derive(Clone, Copy, Debug, PartialEq, Eq, Structural)]
pub enum McpMethod {
    Initialize,
    /// A notification: answered with nothing.
    Initialized,
    Ping,
    ListTools,
    CallTool,
    /// Any other method: answered with [`METHOD_NOT_FOUND`].
    Unknown,
}

/// The JSON-RPC error code for a method the relay does not answer.
pub const METHOD_NOT_FOUND: i64 = -32601;

/// Which method a request names.
pub open spec fn spec_mcp_method(method: Seq<char>) -> McpMethod {
    if method == "initialize"@ {
        McpMethod::Initialize
    } else if method == "notifications/initialized"@ {
        McpMethod::Initialized
    } else if method == "ping"@ {
        McpMethod::Ping
    } else if method == "tools/list"@ {
        McpMethod::ListTools
    } else if method == "tools/call"@ {
        McpMethod::CallTool
    } else {
        McpMethod::Unknown
    }
}

/// Reads which method a request names.
pub fn mcp_method(method: &str) -> (r: McpMethod)
    ensures
        r == spec_mcp_method(method@),
{
    let m = String::from_str(method);
    if m == String::from_str("initialize") {
        McpMethod::Initialize
    } else if m == String::from_str("notifications/initialized") {
        McpMethod::Initialized
    } else if m == String::from_str("ping") {
        McpMethod::Ping
    } else if m == String::from_str("tools/list") {
        McpMethod::ListTools
    } else if m == String::from_str("tools/call") {
        McpMethod::CallTool
    } else {
        McpMethod::Unknown
    }
}

/// The error message for a method the relay does not answer.
pub open spec fn method_not_found_message(method: Seq<char>) -> Seq<char> {
    "method not found: "@ + method
}

/// Builds the error message for a method the relay does not answer.
pub fn method_not_found(method: &str) -> (r: String)
    ensures
        r@ == method_not_found_message(method@),
{
    let mut m = String::from_str("method not found: ");
    m.append(method);
    m
}

/// The listings a tool reads from the page.
#[derive(Clone, Copy, Debug, PartialEq, Eq, Structural)]
pub enum Listing {
    ViewerState,
    Materials,
    Assets,
}

/// Turns the page's answer to a listing into the tool's reply: the listing
/// itself when the answer carries it, else the answer as it stands.
pub fn listing_result(listing: Listing, response: AgentResponse) -> (r: ToolReply)
    ensures
        match (listing, response) {
            (Listing::ViewerState, AgentResponse::ViewerState { state, .. }) => r == ToolReply::Value(state),
            (Listing::Materials, AgentResponse::Materials { materials, .. }) => r == ToolReply::Value(materials),
            (Listing::Assets, AgentResponse::Assets { assets, .. }) => r == ToolReply::Value(assets),
            (_, other) => r == ToolReply::Payload(other),
        },
{
    match (listing, response) {
        (Listing::ViewerState, AgentResponse::ViewerState { state, .. }) => ToolReply::Value(state),
        (Listing::Materials, AgentResponse::Materials { materials, .. }) => ToolReply::Value(materials),
        (Listing::Assets, AgentResponse::Assets { assets, .. }) => ToolReply::Value(assets),
        (_, other) => ToolReply::Payload(other),
    }
}

} // verus!
