//! The agent's component registry: which components exist, which bit of an
//! entity's component mask each one owns, and whether the generic component
//! bag may write it.
use std::collections::HashMap;
use vstd::prelude::*;
use vstd::std_specs::hash::spec_hash_map_iter;
use vstd::std_specs::iter::IteratorSpec;
use vstd::string::StringExecFns;

use crate::json::{JsonValue, shape_of, spec_shape_of};
use crate::protocol::{ComponentInfo, SubscriptionFilter, SubscriptionId, WritePolicyInfo, names_view};
use crate::seqs::{first_where, lemma_first_where, lemma_first_where_is, lemma_first_where_none};

verus! {

broadcast use vstd::std_specs::hash::group_hash_axioms;

/// Whether the generic component bag may carry a component.
#[derive(Debug)]
pub enum Policy {
    /// Plain data: the bag may carry it, no side effects on write.
    Free,
    /// The named command owns this component's cascade.
    Owned(String),
    /// A system computes this component; nothing writes it.
    Derived,
}

/// The model of a [`Policy`].
pub enum PolicyView {
    Free,
    Owned(Seq<char>),
    Derived,
}

/// One registry entry: name, mask bit and write policy.
#[derive(Debug)]
pub struct ComponentEntry {
    pub name: String,
    pub mask: u64,
    pub policy: Policy,
}

/// The model of a [`ComponentEntry`].
pub struct EntryView {
    pub name: Seq<char>,
    pub mask: u64,
    pub policy: PolicyView,
}

impl View for Policy {
    type V = PolicyView;

    open spec fn view(&self) -> PolicyView {
        match self {
            Policy::Free => PolicyView::Free,
            Policy::Owned(command) => PolicyView::Owned(command@),
            Policy::Derived => PolicyView::Derived,
        }
    }
}

impl View for ComponentEntry {
    type V = EntryView;

    open spec fn view(&self) -> EntryView {
        EntryView { name: self.name@, mask: self.mask, policy: self.policy@ }
    }
}

/// The models of a list of entries.
pub open spec fn entries_view(entries: Seq<ComponentEntry>) -> Seq<EntryView> {
    Seq::new(entries.len(), |i: int| entries[i]@)
}

impl ComponentEntry {
    /// A copy of this entry.
    pub fn duplicate(&self) -> (r: ComponentEntry)
        ensures
            r@ == self@,
    {
        let policy = match &self.policy {
            Policy::Free => Policy::Free,
            Policy::Owned(command) => Policy::Owned(command.clone()),
            Policy::Derived => Policy::Derived,
        };
        ComponentEntry { name: self.name.clone(), mask: self.mask, policy }
    }
}

/// The engine's mask bits for the components the registry exposes.
#[derive(Clone, Copy, Debug)]
pub struct ComponentMasks {
    pub local_transform: u64,
    pub parent: u64,
    pub name: u64,
    pub visibility: u64,
    pub camera: u64,
    pub light: u64,
    pub material_ref: u64,
    pub bounding_volume: u64,
    pub casts_shadow: u64,
    pub render_layer: u64,
}

/// The registry: every component the agent can read, in discovery order.
pub open spec fn spec_registry(m: ComponentMasks) -> Seq<EntryView> {
    seq![
        EntryView { name: "local_transform"@, mask: m.local_transform, policy: PolicyView::Free },
        EntryView { name: "parent"@, mask: m.parent, policy: PolicyView::Owned("reparent"@) },
        EntryView { name: "name"@, mask: m.name, policy: PolicyView::Free },
        EntryView { name: "visibility"@, mask: m.visibility, policy: PolicyView::Free },
        EntryView { name: "camera"@, mask: m.camera, policy: PolicyView::Free },
        EntryView { name: "light"@, mask: m.light, policy: PolicyView::Free },
        EntryView { name: "material_ref"@, mask: m.material_ref, policy: PolicyView::Free },
        EntryView { name: "bounding_volume"@, mask: m.bounding_volume, policy: PolicyView::Derived },
        EntryView { name: "casts_shadow"@, mask: m.casts_shadow, policy: PolicyView::Free },
        EntryView { name: "render_layer"@, mask: m.render_layer, policy: PolicyView::Free },
    ]
}

fn entry(name: &str, mask: u64, policy: Policy) -> (r: ComponentEntry)
    ensures
        r@ == (EntryView { name: name@, mask, policy: policy@ }),
{
    ComponentEntry { name: String::from_str(name), mask, policy }
}

/// Builds the registry over the engine's mask bits.
pub fn registry(masks: ComponentMasks) -> (r: Vec<ComponentEntry>)
    ensures
        entries_view(r@) == spec_registry(masks),
{
    let mut r: Vec<ComponentEntry> = Vec::new();
    r.push(entry("local_transform", masks.local_transform, Policy::Free));
    r.push(entry("parent", masks.parent, Policy::Owned(String::from_str("reparent"))));
    r.push(entry("name", masks.name, Policy::Free));
    r.push(entry("visibility", masks.visibility, Policy::Free));
    r.push(entry("camera", masks.camera, Policy::Free));
    r.push(entry("light", masks.light, Policy::Free));
    r.push(entry("material_ref", masks.material_ref, Policy::Free));
    r.push(entry("bounding_volume", masks.bounding_volume, Policy::Derived));
    r.push(entry("casts_shadow", masks.casts_shadow, Policy::Free));
    r.push(entry("render_layer", masks.render_layer, Policy::Free));
    assert(entries_view(r@) =~= spec_registry(masks));
    r
}

/// The predicate "this entry has the given name".
pub open spec fn named(name: Seq<char>) -> spec_fn(EntryView) -> bool {
    |e: EntryView| e.name == name
}

/// The index of the first entry with the given name.
pub open spec fn spec_find(reg: Seq<EntryView>, name: Seq<char>) -> Option<int> {
    first_where(reg, named(name))
}

/// The error text for a name the registry does not hold.
pub open spec fn unknown_message(name: Seq<char>) -> Seq<char> {
    "unknown component: "@ + name
}

/// Looks a component up by name: the first entry with that name, or an
/// error naming the unknown component.
pub fn find<'a>(registry: &'a Vec<ComponentEntry>, name: &String) -> (r: Result<&'a ComponentEntry, String>)
    ensures
        match spec_find(entries_view(registry@), name@) {
            Some(i) => 0 <= i < registry@.len() && r is Ok && r->Ok_0 == &registry@[i],
            None => r is Err && r->Err_0@ == unknown_message(name@),
        },
{
    let ghost reg = entries_view(registry@);
    proof {
        lemma_first_where(reg, named(name@));
    }
    let mut i: usize = 0;
    while i < registry.len()
        invariant
            i <= registry@.len(),
            reg == entries_view(registry@),
            forall|j: int| 0 <= j < i ==> !(named(name@))(#[trigger] reg[j]),
        decreases registry@.len() - i,
    {
        if registry[i].name == *name {
            proof {
                lemma_first_where_is(reg, named(name@), i as int);
            }
            return Ok(&registry[i]);
        }
        i += 1;
    }
    proof {
        lemma_first_where_none(reg, named(name@));
    }
    let mut message = String::from_str("unknown component: ");
    message.append(name.as_str());
    Err(message)
}


/// What the generic bag may do with a component: its mask bit when it may
/// write it, else the reason it may not.
pub open spec fn spec_writable(reg: Seq<EntryView>, name: Seq<char>) -> Result<u64, Seq<char>> {
    match spec_find(reg, name) {
        None => Err(unknown_message(name)),
        Some(i) => match reg[i].policy {
            PolicyView::Free => Ok(reg[i].mask),
            PolicyView::Owned(command) => Err(name + " is owned by the "@ + command + " command"@),
            PolicyView::Derived => Err(name + " is derived and cannot be written"@),
        },
    }
}

/// Checks that the bag may write a component, returning its mask bit.
pub fn writable(registry: &Vec<ComponentEntry>, name: &String) -> (r: Result<u64, String>)
    ensures
        match spec_writable(entries_view(registry@), name@) {
            Ok(m) => r == Ok::<u64, String>(m),
            Err(e) => r is Err && r->Err_0@ == e,
        },
{
    let ghost reg = entries_view(registry@);
    let entry = match find(registry, name) {
        Ok(entry) => entry,
        Err(message) => return Err(message),
    };
    let ghost i = spec_find(reg, name@)->Some_0;
    assert(entry@ == reg[i]);
    match &entry.policy {
        Policy::Free => Ok(entry.mask),
        Policy::Owned(command) => {
            let mut message = name.clone();
            message.append(" is owned by the ");
            message.append(command.as_str());
            message.append(" command");
            Err(message)
        },
        Policy::Derived => {
            let mut message = name.clone();
            message.append(" is derived and cannot be written");
            Err(message)
        },
    }
}

/// The union of the mask bits of every named component the bag may write, or
/// the first refusal among the names.
pub open spec fn spec_writable_mask(reg: Seq<EntryView>, names: Seq<Seq<char>>) -> Result<u64, Seq<char>>
    decreases names.len(),
{
    if names.len() == 0 {
        Ok(0u64)
    } else {
        match spec_writable_mask(reg, names.drop_last()) {
            Err(e) => Err(e),
            Ok(m) => match spec_writable(reg, names.last()) {
                Ok(bit) => Ok(m | bit),
                Err(e) => Err(e),
            },
        }
    }
}

/// Checks a whole list of component names, in order, returning the union of
/// their mask bits.
pub fn writable_mask(registry: &Vec<ComponentEntry>, names: &Vec<String>) -> (r: Result<u64, String>)
    ensures
        match spec_writable_mask(entries_view(registry@), names_view(names@)) {
            Ok(m) => r == Ok::<u64, String>(m),
            Err(e) => r is Err && r->Err_0@ == e,
        },
{
    let ghost reg = entries_view(registry@);
    let ghost all = names_view(names@);
    let mut mask: u64 = 0;
    let mut i: usize = 0;
    while i < names.len()
        invariant
            i <= names@.len(),
            reg == entries_view(registry@),
            all == names_view(names@),
            spec_writable_mask(reg, all.take(i as int)) == Ok::<u64, Seq<char>>(mask),
        decreases names@.len() - i,
    {
        assert(all.take(i + 1).drop_last() =~= all.take(i as int));
        assert(all.take(i + 1).last() == names@[i as int]@);
        match writable(registry, &names[i]) {
            Ok(bit) => {
                mask = mask | bit;
            },
            Err(message) => {
                proof {
                    lemma_writable_mask_err(reg, all, i as int);
                }
                return Err(message);
            },
        }
        i += 1;
    }
    assert(all.take(names@.len() as int) =~= all);
    Ok(mask)
}

/// Once a prefix of the names is refused, the whole list is refused for the
/// same reason.
proof fn lemma_writable_mask_err(reg: Seq<EntryView>, names: Seq<Seq<char>>, i: int)
    requires
        0 <= i < names.len(),
        spec_writable_mask(reg, names.take(i + 1)) is Err,
    ensures
        spec_writable_mask(reg, names) == spec_writable_mask(reg, names.take(i + 1)),
    decreases names.len() - i,
{
    if i + 1 == names.len() {
        assert(names.take(i + 1) =~= names);
    } else {
        assert(names.take(i + 2).drop_last() =~= names.take(i + 1));
        lemma_writable_mask_err(reg, names, i + 1);
    }
}

/// The union of the mask bits of the named components the registry knows;
/// unknown names add nothing.
pub open spec fn spec_mask_for(reg: Seq<EntryView>, names: Seq<Seq<char>>) -> u64
    decreases names.len(),
{
    if names.len() == 0 {
        0u64
    } else {
        let m = spec_mask_for(reg, names.drop_last());
        match spec_find(reg, names.last()) {
            Some(i) => m | reg[i].mask,
            None => m,
        }
    }
}

/// Computes [`spec_mask_for`].
pub fn mask_for(registry: &Vec<ComponentEntry>, component_types: &Vec<String>) -> (r: u64)
    ensures
        r == spec_mask_for(entries_view(registry@), names_view(component_types@)),
{
    let ghost reg = entries_view(registry@);
    let ghost all = names_view(component_types@);
    let mut mask: u64 = 0;
    let mut i: usize = 0;
    while i < component_types.len()
        invariant
            i <= component_types@.len(),
            reg == entries_view(registry@),
            all == names_view(component_types@),
            spec_mask_for(reg, all.take(i as int)) == mask,
        decreases component_types@.len() - i,
    {
        assert(all.take(i + 1).drop_last() =~= all.take(i as int));
        assert(all.take(i + 1).last() == component_types@[i as int]@);
        match find(registry, &component_types[i]) {
            Ok(entry) => {
                assert(entry.mask == reg[spec_find(reg, all[i as int])->Some_0].mask);
                mask = mask | entry.mask;
            },
            Err(_) => {},
        }
        i += 1;
    }
    assert(all.take(component_types@.len() as int) =~= all);
    mask
}

/// Whether a subscription's filter covers a component: a filter that lists
/// no component types covers every component.
pub open spec fn filter_covers(filter: SubscriptionFilter, name: Seq<char>) -> bool {
    let names = names_view(filter.component_types@);
    names.len() == 0 || names.contains(name)
}

/// Whether some live subscription covers a component.
pub open spec fn covered(subscriptions: Map<SubscriptionId, SubscriptionFilter>, name: Seq<char>) -> bool {
    exists|id: SubscriptionId| #[trigger] subscriptions.contains_key(id) && filter_covers(subscriptions[id], name)
}

fn lists_name(names: &Vec<String>, name: &String) -> (r: bool)
    ensures
        r == names_view(names@).contains(name@),
{
    let mut i: usize = 0;
    while i < names.len()
        invariant
            i <= names@.len(),
            forall|j: int| 0 <= j < i ==> names@[j]@ != name@,
        decreases names@.len() - i,
    {
        if names[i] == *name {
            assert(names_view(names@)[i as int] == name@);
            return true;
        }
        i += 1;
    }
    assert forall|j: int| 0 <= j < names_view(names@).len() implies names_view(names@)[j] != name@ by {}
    false
}

fn is_covered(subscriptions: &HashMap<SubscriptionId, SubscriptionFilter>, name: &String) -> (r: bool)
    ensures
        r == covered(subscriptions@, name@),
{
    let ghost m = subscriptions@;
    for entry in it: subscriptions.iter()
        invariant
            m == subscriptions@,
            it.seq() == spec_hash_map_iter(subscriptions).remaining(),
            forall|j: int| 0 <= j < it.index() ==> !filter_covers(*(#[trigger] it.seq()[j]).1, name@),
    {
        let (_, filter) = entry;
        let names = &filter.component_types;
        if names.len() == 0 || lists_name(names, name) {
            assert(m.contains_key(*it.seq()[it.index() as int].0));
            return true;
        }
    }
    assert forall|id: SubscriptionId| #[trigger] m.contains_key(id) implies !filter_covers(m[id], name@) by {
        let v = spec_hash_map_iter(subscriptions).remaining();
        assert(v.contains((&id, &m[id])));
        let j = choose|j: int| 0 <= j < v.len() && v[j] == (&id, &m[id]);
        assert(!filter_covers(*v[j].1, name@));
    }
    false
}

/// The entries some subscription covers, in registry order.
pub fn tracked_entries(
    subscriptions: &HashMap<SubscriptionId, SubscriptionFilter>,
    registry: &Vec<ComponentEntry>,
) -> (r: Vec<ComponentEntry>)
    ensures
        entries_view(r@) == entries_view(registry@).filter(
            |e: EntryView| covered(subscriptions@, e.name),
        ),
{
    let ghost reg = entries_view(registry@);
    let ghost p = |e: EntryView| covered(subscriptions@, e.name);
    let mut r: Vec<ComponentEntry> = Vec::new();
    let mut i: usize = 0;
    while i < registry.len()
        invariant
            i <= registry@.len(),
            reg == entries_view(registry@),
            p == (|e: EntryView| covered(subscriptions@, e.name)),
            entries_view(r@) == reg.take(i as int).filter(p),
        decreases registry@.len() - i,
    {
        proof {
            reveal_with_fuel(Seq::<_>::filter, 1);
            assert(reg.take(i + 1).drop_last() =~= reg.take(i as int));
        }
        if is_covered(subscriptions, &registry[i].name) {
            r.push(registry[i].duplicate());
        }
        assert(entries_view(r@) =~= reg.take(i + 1).filter(p));
        i += 1;
    }
    assert(reg.take(registry@.len() as int) =~= reg);
    r
}

/// The entries a single filter covers, in registry order: all of them when it
/// lists no component types.
pub open spec fn spec_filter_entries(filter: Seq<Seq<char>>, reg: Seq<EntryView>) -> Seq<EntryView> {
    if filter.len() == 0 {
        reg
    } else {
        reg.filter(|e: EntryView| filter.contains(e.name))
    }
}

/// Computes [`spec_filter_entries`].
pub fn filter_entries(filter: &SubscriptionFilter, registry: &Vec<ComponentEntry>) -> (r: Vec<ComponentEntry>)
    ensures
        entries_view(r@) == spec_filter_entries(names_view(filter.component_types@), entries_view(registry@)),
{
    let ghost reg = entries_view(registry@);
    let ghost names = names_view(filter.component_types@);
    let ghost p = |e: EntryView| names.contains(e.name);
    let all = filter.component_types.len() == 0;
    let mut r: Vec<ComponentEntry> = Vec::new();
    let mut i: usize = 0;
    while i < registry.len()
        invariant
            i <= registry@.len(),
            reg == entries_view(registry@),
            names == names_view(filter.component_types@),
            all == (names.len() == 0),
            p == (|e: EntryView| names.contains(e.name)),
            all ==> entries_view(r@) == reg.take(i as int),
            !all ==> entries_view(r@) == reg.take(i as int).filter(p),
        decreases registry@.len() - i,
    {
        proof {
            reveal_with_fuel(Seq::<_>::filter, 1);
            assert(reg.take(i + 1).drop_last() =~= reg.take(i as int));
        }
        if all || lists_name(&filter.component_types, &registry[i].name) {
            r.push(registry[i].duplicate());
        }
        assert(all ==> entries_view(r@) =~= reg.take(i + 1));
        assert(!all ==> entries_view(r@) =~= reg.take(i + 1).filter(p));
        i += 1;
    }
    assert(reg.take(registry@.len() as int) =~= reg);
    r
}

/// Describes an entry to the agent: its name, write policy, the shape of its
/// sample value and the sample value itself.
pub fn component_info(entry: &ComponentEntry, example: JsonValue) -> (r: ComponentInfo)
    ensures
        r.name@ == entry.name@,
        match (entry.policy@, r.write_policy) {
            (PolicyView::Free, WritePolicyInfo::Free) => true,
            (PolicyView::Owned(c), WritePolicyInfo::Owned { command }) => command@ == c,
            (PolicyView::Derived, WritePolicyInfo::Derived) => true,
            _ => false,
        },
        r.schema@ == spec_shape_of(example@),
        r.example@ == example@,
{
    let schema = shape_of(&example);
    let write_policy = match &entry.policy {
        Policy::Free => WritePolicyInfo::Free,
        Policy::Owned(command) => WritePolicyInfo::Owned { command: command.clone() },
        Policy::Derived => WritePolicyInfo::Derived,
    };
    ComponentInfo { name: entry.name.clone(), write_policy, schema, example }
}

} // verus!
