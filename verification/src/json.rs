//! A JSON document model: the values that travel between the agent host, the
//! page relay and the worker, held as plain data so that the logic reading
//! them can be verified.
use vstd::prelude::*;

use crate::order::text_less;
use vstd::string::StringExecFns;

use crate::seqs::{first_where, lemma_first_where, lemma_first_where_is, lemma_first_where_none};

verus! {

/// A JSON value. Numbers keep their textual form, object members keep their
/// order.
#[derive(Debug)]
pub enum JsonValue {
    Null,
    Bool(bool),
    Number(String),
    String(String),
    Array(Vec<JsonValue>),
    Object(Vec<(String, JsonValue)>),
}

/// The mathematical model of a [`JsonValue`].
pub enum JsonView {
    Null,
    Bool(bool),
    Number(Seq<char>),
    String(Seq<char>),
    Array(Seq<JsonView>),
    Object(Seq<(Seq<char>, JsonView)>),
}

impl View for JsonValue {
    type V = JsonView;

    open spec fn view(&self) -> JsonView {
        json_view(*self)
    }
}

/// The model of a value.
pub open spec fn json_view(v: JsonValue) -> JsonView
    decreases v,
{
    match v {
        JsonValue::Null => JsonView::Null,
        JsonValue::Bool(b) => JsonView::Bool(b),
        JsonValue::Number(n) => JsonView::Number(n@),
        JsonValue::String(s) => JsonView::String(s@),
        JsonValue::Array(items) => JsonView::Array(
            Seq::new(
                items@.len(),
                |i: int|
                    if 0 <= i < items@.len() {
                        json_view(items@[i])
                    } else {
                        JsonView::Null
                    },
            ),
        ),
        JsonValue::Object(members) => JsonView::Object(
            Seq::new(
                members@.len(),
                |i: int|
                    if 0 <= i < members@.len() {
                        (members@[i].0@, json_view(members@[i].1))
                    } else {
                        (Seq::<char>::empty(), JsonView::Null)
                    },
            ),
        ),
    }
}

/// Whether every object in a value lists its members with keys in strictly
/// increasing order (so each key once), as a JSON map with sorted keys does.
pub open spec fn sorted_keys(v: JsonView) -> bool
    decreases v,
{
    match v {
        JsonView::Object(members) => {
            &&& forall|i: int, j: int| 0 <= i < j < members.len() ==> text_less(#[trigger] members[i].0, #[trigger] members[j].0)
            &&& forall|i: int| 0 <= i < members.len() ==> sorted_keys(#[trigger] members[i].1)
        },
        JsonView::Array(items) => forall|i: int| 0 <= i < items.len() ==> sorted_keys(#[trigger] items[i]),
        _ => true,
    }
}

/// The model of a list of named values (a component bag or an object's members).
pub open spec fn pairs_view(pairs: Seq<(String, JsonValue)>) -> Seq<(Seq<char>, JsonView)> {
    Seq::new(pairs.len(), |i: int| (pairs[i].0@, pairs[i].1@))
}

/// The model of a list of values.
pub open spec fn items_view(items: Seq<JsonValue>) -> Seq<JsonView> {
    Seq::new(items.len(), |i: int| items[i]@)
}

/// An array's model is the list of its items' models.
pub proof fn lemma_array_view(v: &JsonValue)
    requires
        v is Array,
    ensures
        v@ == JsonView::Array(items_view(v->Array_0@)),
{
    assert(v@->Array_0 =~= items_view(v->Array_0@));
}

/// An object's model is the list of its members' models.
pub proof fn lemma_object_view(v: &JsonValue)
    requires
        v is Object,
    ensures
        v@ == JsonView::Object(pairs_view(v->Object_0@)),
{
    assert(v@->Object_0 =~= pairs_view(v->Object_0@));
}

/// A string value holding the given text.
pub fn text(s: &str) -> (r: JsonValue)
    ensures
        r@ == JsonView::String(s@),
{
    JsonValue::String(String::from_str(s))
}

impl JsonValue {
    /// A deep copy.
    #[verifier::loop_isolation(false)]
    pub fn duplicate(&self) -> (r: JsonValue)
        ensures
            r@ == self@,
        decreases self,
    {
        match self {
            JsonValue::Null => JsonValue::Null,
            JsonValue::Bool(b) => JsonValue::Bool(*b),
            JsonValue::Number(n) => JsonValue::Number(n.clone()),
            JsonValue::String(s) => JsonValue::String(s.clone()),
            JsonValue::Array(items) => {
                let mut out: Vec<JsonValue> = Vec::new();
                let mut i: usize = 0;
                while i < items.len()
                    invariant
                        i <= items@.len(),
                        out@.len() == i,
                        forall|k: int| 0 <= k < i ==> #[trigger] out@[k]@ == items@[k]@,
                    decreases items@.len() - i,
                {
                    let copy = items[i].duplicate();
                    out.push(copy);
                    i += 1;
                }
                let r = JsonValue::Array(out);
                assert(r@ == self@) by {
                    if let JsonView::Array(a) = r@ {
                        if let JsonView::Array(b) = self@ {
                            assert(a.len() == b.len());
                            assert forall|k: int| 0 <= k < a.len() implies a[k] == b[k] by {
                                assert(out@[k]@ == items@[k]@);
                            }
                            assert(a =~= b);
                        }
                    }
                }
                r
            },
            JsonValue::Object(fields) => {
                let mut out: Vec<(String, JsonValue)> = Vec::new();
                let mut i: usize = 0;
                while i < fields.len()
                    invariant
                        i <= fields@.len(),
                        out@.len() == i,
                        forall|k: int|
                            0 <= k < i ==> #[trigger] out@[k].0@ == fields@[k].0@ && out@[k].1@
                                == fields@[k].1@,
                    decreases fields@.len() - i,
                {
                    let key = fields[i].0.clone();
                    let value = fields[i].1.duplicate();
                    out.push((key, value));
                    i += 1;
                }
                let r = JsonValue::Object(out);
                assert(r@ == self@) by {
                    assert(out@.len() == fields@.len());
                    assert(self@ is Object);
                        if let JsonView::Object(a) = r@ {
                        if let JsonView::Object(b) = self@ {
                            assert(a.len() == b.len());
                            assert forall|k: int| 0 <= k < a.len() implies a[k] == b[k] by {
                                assert(out@[k].0@ == fields@[k].0@);
                                assert(out@[k].1@ == fields@[k].1@);
                            }
                            assert(a =~= b);
                        }
                    }
                }
                r
            },
        }
    }
}

/// The structural shape of a value: each scalar replaced by the name of its
/// type, an array by the shape of its first element (`"any"` when empty), an
/// object by the shapes of its members.
pub open spec fn spec_shape_of(v: JsonView) -> JsonView
    decreases v,
{
    match v {
        JsonView::Null => JsonView::String("null"@),
        JsonView::Bool(_) => JsonView::String("boolean"@),
        JsonView::Number(_) => JsonView::String("number"@),
        JsonView::String(_) => JsonView::String("string"@),
        JsonView::Array(items) => JsonView::Array(
            seq![
                if items.len() > 0 {
                    spec_shape_of(items[0])
                } else {
                    JsonView::String("any"@)
                },
            ],
        ),
        JsonView::Object(members) => JsonView::Object(
            Seq::new(
                members.len(),
                |i: int|
                    if 0 <= i < members.len() {
                        (members[i].0, spec_shape_of(members[i].1))
                    } else {
                        (Seq::<char>::empty(), JsonView::Null)
                    },
            ),
        ),
    }
}

/// Computes [`spec_shape_of`].
#[verifier::loop_isolation(false)]
pub fn shape_of(value: &JsonValue) -> (r: JsonValue)
    ensures
        r@ == spec_shape_of(value@),
    decreases value,
{
    proof {
        reveal_strlit("null");
        reveal_strlit("boolean");
        reveal_strlit("number");
        reveal_strlit("string");
        reveal_strlit("any");
    }
    match value {
        JsonValue::Null => text("null"),
        JsonValue::Bool(_) => text("boolean"),
        JsonValue::Number(_) => text("number"),
        JsonValue::String(_) => text("string"),
        JsonValue::Array(items) => {
            let inner = if items.len() > 0 {
                shape_of(&items[0])
            } else {
                text("any")
            };
            let mut out: Vec<JsonValue> = Vec::new();
            out.push(inner);
            let r = JsonValue::Array(out);
            assert(r@ == spec_shape_of(value@)) by {
                if let JsonView::Array(a) = r@ {
                    if let JsonView::Array(b) = spec_shape_of(value@) {
                        assert(a =~= b);
                    }
                }
            }
            r
        },
        JsonValue::Object(members) => {
            let mut out: Vec<(String, JsonValue)> = Vec::new();
            let mut i: usize = 0;
            while i < members.len()
                invariant
                    i <= members@.len(),
                    out@.len() == i,
                    forall|k: int|
                        0 <= k < i ==> #[trigger] out@[k].0@ == members@[k].0@ && out@[k].1@
                            == spec_shape_of(members@[k].1@),
                decreases members@.len() - i,
            {
                let key = members[i].0.clone();
                let shaped = shape_of(&members[i].1);
                out.push((key, shaped));
                i += 1;
            }
            let r = JsonValue::Object(out);
            assert(r@ == spec_shape_of(value@)) by {
                if let JsonView::Object(a) = r@ {
                    if let JsonView::Object(b) = spec_shape_of(value@) {
                        assert(a.len() == b.len());
                        assert forall|k: int| 0 <= k < a.len() implies a[k] == b[k] by {
                            assert(out@[k].0@ == members@[k].0@);
                            assert(out@[k].1@ == spec_shape_of(members@[k].1@));
                        }
                        assert(a =~= b);
                    }
                }
            }
            r
        },
    }
}


/// A deep copy of a list of named values.
pub fn duplicate_pairs(pairs: &Vec<(String, JsonValue)>) -> (r: Vec<(String, JsonValue)>)
    ensures
        pairs_view(r@) == pairs_view(pairs@),
{
    let mut r: Vec<(String, JsonValue)> = Vec::new();
    let mut i: usize = 0;
    while i < pairs.len()
        invariant
            i <= pairs@.len(),
            pairs_view(r@) =~= pairs_view(pairs@).take(i as int),
        decreases pairs@.len() - i,
    {
        let ghost before = pairs_view(r@);
        r.push((pairs[i].0.clone(), pairs[i].1.duplicate()));
        assert(pairs_view(r@) =~= before.push((pairs@[i as int].0@, pairs@[i as int].1@)));
        i += 1;
    }
    assert(pairs_view(pairs@).take(pairs@.len() as int) =~= pairs_view(pairs@));
    r
}

/// An array's item at an index; nothing for other values or out of range.
pub open spec fn spec_get_index(v: JsonView, index: int) -> Option<JsonView> {
    match v {
        JsonView::Array(items) => if 0 <= index < items.len() {
            Some(items[index])
        } else {
            None
        },
        _ => None,
    }
}

/// The predicate "this member has the given key".
pub open spec fn keyed_member(key: Seq<char>) -> spec_fn((Seq<char>, JsonView)) -> bool {
    |m: (Seq<char>, JsonView)| m.0 == key
}

/// An object's member value under a key; nothing for other values or a
/// missing key.
pub open spec fn spec_get_key(v: JsonView, key: Seq<char>) -> Option<JsonView> {
    match v {
        JsonView::Object(members) => match first_where(members, keyed_member(key)) {
            Some(i) => Some(members[i].1),
            None => None,
        },
        _ => None,
    }
}

/// Reads an array item by index.
pub fn get_index(v: &JsonValue, index: usize) -> (r: Option<&JsonValue>)
    ensures
        match spec_get_index(v@, index as int) {
            Some(item) => r is Some && r->Some_0@ == item,
            None => r is None,
        },
{
    match v {
        JsonValue::Array(items) => {
            proof {
                lemma_array_view(v);
            }
            if index < items.len() {
                Some(&items[index])
            } else {
                None
            }
        },
        _ => None,
    }
}

/// Reads an object member by key.
pub fn get_key<'a>(v: &'a JsonValue, key: &String) -> (r: Option<&'a JsonValue>)
    ensures
        match spec_get_key(v@, key@) {
            Some(item) => r is Some && r->Some_0@ == item,
            None => r is None,
        },
{
    match v {
        JsonValue::Object(members) => {
            proof {
                lemma_object_view(v);
                lemma_first_where(pairs_view(members@), keyed_member(key@));
            }
            let ghost mv = pairs_view(members@);
            let mut i: usize = 0;
            while i < members.len()
                invariant
                    i <= members@.len(),
                    mv == pairs_view(members@),
                    v@ == JsonView::Object(mv),
                    forall|j: int| 0 <= j < i ==> !(keyed_member(key@))(#[trigger] mv[j]),
                decreases members@.len() - i,
            {
                if members[i].0 == *key {
                    proof {
                        lemma_first_where_is(mv, keyed_member(key@), i as int);
                        assert(mv[i as int].1 == members@[i as int].1@);
                    }
                    return Some(&members[i].1);
                }
                i += 1;
            }
            proof {
                lemma_first_where_none(mv, keyed_member(key@));
            }
            None
        },
        _ => None,
    }
}

} // verus!
