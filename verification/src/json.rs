//! A JSON value held as plain data.
//!
//! Node parameters, module outputs and data-port items are JSON documents.
//! The library holds them in `JsonValue`, whose numbers keep the three
//! shapes a JSON number can take (non-negative integer, negative integer,
//! or a float kept as its IEEE-754 bit pattern), and whose objects are
//! sequences of key/value entries.
use vstd::prelude::*;

verus! {

/// A JSON number: a non-negative integer, a negative integer, or a float
/// held as its bit pattern.
#[derive(Clone, Copy, Debug)]
pub enum JsonNumber {
    PosInt(u64),
    NegInt(i64),
    Float(u64),
}

/// A JSON value.
#[derive(Debug)]
pub enum JsonValue {
    Null,
    Bool(bool),
    Number(JsonNumber),
    Str(String),
    Array(Vec<JsonValue>),
    Object(Vec<(String, JsonValue)>),
}

/// The mathematical form of a JSON value: strings as character sequences,
/// arrays and objects as sequences.
pub enum JsonView {
    Null,
    Bool(bool),
    Number(JsonNumber),
    Str(Seq<char>),
    Array(Seq<JsonView>),
    Object(Seq<(Seq<char>, JsonView)>),
}

impl JsonValue {
    /// The view of a JSON value.
    pub open spec fn view_of(self) -> JsonView
        decreases self,
    {
        match self {
            JsonValue::Null => JsonView::Null,
            JsonValue::Bool(b) => JsonView::Bool(b),
            JsonValue::Number(n) => JsonView::Number(n),
            JsonValue::Str(s) => JsonView::Str(s@),
            JsonValue::Array(items) => JsonView::Array(
                Seq::new(
                    items@.len(),
                    |i: int|
                        if 0 <= i < items@.len() {
                            items@[i].view_of()
                        } else {
                            JsonView::Null
                        },
                ),
            ),
            JsonValue::Object(entries) => JsonView::Object(
                Seq::new(
                    entries@.len(),
                    |i: int|
                        if 0 <= i < entries@.len() {
                            (entries@[i].0@, entries@[i].1.view_of())
                        } else {
                            (Seq::empty(), JsonView::Null)
                        },
                ),
            ),
        }
    }
}

impl View for JsonValue {
    type V = JsonView;

    open spec fn view(&self) -> JsonView {
        self.view_of()
    }
}

/// The views of a vector of JSON values.
pub open spec fn json_seq_view(items: Seq<JsonValue>) -> Seq<JsonView> {
    items.map_values(|v: JsonValue| v.view_of())
}

/// The views of object entries.
pub open spec fn entries_view(entries: Seq<(String, JsonValue)>) -> Seq<(Seq<char>, JsonView)> {
    entries.map_values(|e: (String, JsonValue)| (e.0@, e.1.view_of()))
}

/// The value of the first entry with key `key`, if any.
pub open spec fn entries_lookup(entries: Seq<(Seq<char>, JsonView)>, key: Seq<char>) -> Option<
    JsonView,
>
    decreases entries.len(),
{
    if entries.len() == 0 {
        None
    } else if entries[0].0 == key {
        Some(entries[0].1)
    } else {
        entries_lookup(entries.drop_first(), key)
    }
}

/// `Value::get(key)`: the member `key` of an object; `None` for any other value.
pub open spec fn json_get(v: JsonView, key: Seq<char>) -> Option<JsonView> {
    match v {
        JsonView::Object(entries) => entries_lookup(entries, key),
        _ => None,
    }
}

/// `Value::as_str`.
pub open spec fn json_as_str(v: Option<JsonView>) -> Option<Seq<char>> {
    match v {
        Some(JsonView::Str(s)) => Some(s),
        _ => None,
    }
}

/// `Value::as_u64`: only non-negative integers.
pub open spec fn json_as_u64(v: Option<JsonView>) -> Option<u64> {
    match v {
        Some(JsonView::Number(JsonNumber::PosInt(n))) => Some(n),
        _ => None,
    }
}

/// `Value::as_array`.
pub open spec fn json_as_array(v: Option<JsonView>) -> Option<Seq<JsonView>> {
    match v {
        Some(JsonView::Array(items)) => Some(items),
        _ => None,
    }
}

/// Index of the first entry whose key is `key`, or the length when there is none.
pub open spec fn entries_key_index(entries: Seq<(Seq<char>, JsonView)>, key: Seq<char>) -> int
    decreases entries.len(),
{
    if entries.len() == 0 {
        0
    } else if entries[0].0 == key {
        0
    } else {
        1 + entries_key_index(entries.drop_first(), key)
    }
}

/// `Map::insert(key, value)`: replaces the value of the entry with that key,
/// or appends a new entry.
pub open spec fn entries_insert(
    entries: Seq<(Seq<char>, JsonView)>,
    key: Seq<char>,
    value: JsonView,
) -> Seq<(Seq<char>, JsonView)> {
    let i = entries_key_index(entries, key);
    if i < entries.len() {
        entries.update(i, (key, value))
    } else {
        entries.push((key, value))
    }
}

/// `Map::remove(key)`: the entries without those whose key is `key`.
pub open spec fn entries_remove(entries: Seq<(Seq<char>, JsonView)>, key: Seq<char>) -> Seq<
    (Seq<char>, JsonView),
> {
    entries.filter(key_differs(key))
}

/// The predicate "this entry's key is not `key`".
pub open spec fn key_differs(key: Seq<char>) -> spec_fn((Seq<char>, JsonView)) -> bool {
    |e: (Seq<char>, JsonView)| e.0 != key
}

/// Facts about the first-match index.
pub proof fn lemma_key_index(entries: Seq<(Seq<char>, JsonView)>, key: Seq<char>)
    ensures
        0 <= entries_key_index(entries, key) <= entries.len(),
        forall|j: int|
            0 <= j < entries_key_index(entries, key) ==> #[trigger] entries[j].0 != key,
        entries_key_index(entries, key) < entries.len() ==> entries[entries_key_index(
            entries,
            key,
        )].0 == key,
        entries_lookup(entries, key) == if entries_key_index(entries, key) < entries.len() {
            Some(entries[entries_key_index(entries, key)].1)
        } else {
            None::<JsonView>
        },
    decreases entries.len(),
{
    if entries.len() > 0 && entries[0].0 != key {
        lemma_key_index(entries.drop_first(), key);
        assert forall|j: int| 0 <= j < entries_key_index(entries, key) implies #[trigger] entries[j].0
            != key by {
            if j > 0 {
                assert(entries[j] == entries.drop_first()[j - 1]);
            }
        }
    }
}

/// The first index at which `key` occurs, found by scanning.
pub fn find_key(entries: &Vec<(String, JsonValue)>, key: &str) -> (r: usize)
    ensures
        r as int == entries_key_index(entries_view(entries@), key@),
{
    let ghost ev = entries_view(entries@);
    proof {
        lemma_key_index(ev, key@);
    }
    let mut i: usize = 0;
    while i < entries.len()
        invariant
            ev == entries_view(entries@),
            i <= entries.len(),
            i <= entries_key_index(ev, key@),
            0 <= entries_key_index(ev, key@) <= ev.len(),
            forall|j: int| 0 <= j < entries_key_index(ev, key@) ==> #[trigger] ev[j].0 != key@,
            entries_key_index(ev, key@) < ev.len() ==> ev[entries_key_index(ev, key@)].0 == key@,
        decreases entries.len() - i,
    {
        if crate::strs::str_eq(entries[i].0.as_str(), key) {
            assert(ev[i as int].0 == key@);
            return i;
        }
        assert(ev[i as int].0 != key@);
        i += 1;
    }
    i
}

impl JsonValue {
    /// A copy with the same view.
    pub fn deep_clone(&self) -> (r: Self)
        ensures
            r@ == self@,
        decreases self,
    {
        match self {
            JsonValue::Null => JsonValue::Null,
            JsonValue::Bool(b) => JsonValue::Bool(*b),
            JsonValue::Number(n) => JsonValue::Number(*n),
            JsonValue::Str(s) => JsonValue::Str(s.clone()),
            JsonValue::Array(items) => {
                let out = clone_values(items);
                let r = JsonValue::Array(out);
                assert forall|j: int| 0 <= j < items@.len() implies r@->Array_0[j] == self@->Array_0[j] by {
                    assert(out@[j]@ == items@[j]@);
                }
                assert(r@->Array_0 =~= self@->Array_0);
                r
            },
            JsonValue::Object(entries) => {
                let mut out: Vec<(String, JsonValue)> = Vec::new();
                let mut i: usize = 0;
                while i < entries.len()
                    invariant
                        i <= entries.len(),
                        out@.len() == i,
                        *self == JsonValue::Object(*entries),
                        forall|j: int|
                            0 <= j < i ==> #[trigger] out@[j].0@ == entries@[j].0@ && out@[j].1@
                                == entries@[j].1@,
                    decreases entries.len() - i,
                {
                    proof {
                        assert(decreases_to!(*self => (*self)->Object_0));
                        assert(decreases_to!(*entries => entries@[i as int]));
                        assert(decreases_to!(entries@[i as int] => entries@[i as int].1));
                    }
                    let k = entries[i].0.clone();
                    let v = entries[i].1.deep_clone();
                    out.push((k, v));
                    i += 1;
                }
                let r = JsonValue::Object(out);
                assert(r@->Object_0 =~= self@->Object_0);
                r
            },
        }
    }

    /// `Value::get(key)`.
    pub fn get(&self, key: &str) -> (r: Option<&JsonValue>)
        ensures
            match r {
                Some(v) => json_get(self@, key@) == Some(v@),
                None => json_get(self@, key@) is None,
            },
    {
        match self {
            JsonValue::Object(entries) => {
                let i = find_key(entries, key);
                proof {
                    assert(entries_view(entries@) =~= self@->Object_0);
                    lemma_key_index(self@->Object_0, key@);
                }
                if i < entries.len() {
                    Some(&entries[i].1)
                } else {
                    None
                }
            },
            _ => None,
        }
    }

    /// `Value::as_str`.
    pub fn as_str(&self) -> (r: Option<&str>)
        ensures
            match r {
                Some(s) => json_as_str(Some(self@)) == Some(s@),
                None => json_as_str(Some(self@)) is None,
            },
    {
        match self {
            JsonValue::Str(s) => Some(s.as_str()),
            _ => None,
        }
    }

    /// `Value::as_u64`.
    pub fn as_u64(&self) -> (r: Option<u64>)
        ensures
            r == json_as_u64(Some(self@)),
    {
        match self {
            JsonValue::Number(JsonNumber::PosInt(n)) => Some(*n),
            _ => None,
        }
    }

    /// `Value::as_array`.
    pub fn as_array(&self) -> (r: Option<&Vec<JsonValue>>)
        ensures
            match r {
                Some(items) => json_as_array(Some(self@)) == Some(json_seq_view(items@)),
                None => json_as_array(Some(self@)) is None,
            },
    {
        match self {
            JsonValue::Array(items) => {
                assert(json_seq_view(items@) =~= self@->Array_0);
                Some(items)
            },
            _ => None,
        }
    }

    /// `json!({})`.
    pub fn empty_object() -> (r: JsonValue)
        ensures
            r@ == JsonView::Object(Seq::empty()),
    {
        let r = JsonValue::Object(Vec::new());
        assert(r@->Object_0 =~= Seq::<(Seq<char>, JsonView)>::empty());
        r
    }

    /// `json!(s)` for a string.
    pub fn from_string(s: String) -> (r: JsonValue)
        ensures
            r@ == JsonView::Str(s@),
    {
        JsonValue::Str(s)
    }
}

/// A copy of each value, with the same views.
pub fn clone_values(items: &Vec<JsonValue>) -> (out: Vec<JsonValue>)
    ensures
        out@.len() == items@.len(),
        forall|j: int| 0 <= j < items@.len() ==> #[trigger] out@[j]@ == items@[j]@,
        json_seq_view(out@) == json_seq_view(items@),
    decreases items@,
{
    let mut out: Vec<JsonValue> = Vec::new();
    let mut i: usize = 0;
    while i < items.len()
        invariant
            i <= items.len(),
            out@.len() == i,
            forall|j: int| 0 <= j < i ==> #[trigger] out@[j]@ == items@[j]@,
        decreases items.len() - i,
    {
        proof {
            assert(decreases_to!(items@ => items@[i as int]));
        }
        out.push(items[i].deep_clone());
        i += 1;
    }
    assert forall|j: int| 0 <= j < items@.len() implies json_seq_view(out@)[j] == json_seq_view(items@)[j] by {
        assert(out@[j]@ == items@[j]@);
    }
    assert(json_seq_view(out@) =~= json_seq_view(items@));
    out
}

/// Inserts `key: value` into object entries (`Map::insert`).
pub fn object_insert(entries: &mut Vec<(String, JsonValue)>, key: String, value: JsonValue)
    ensures
        entries_view(final(entries)@) == entries_insert(entries_view(old(entries)@), key@, value@),
{
    let i = find_key(entries, key.as_str());
    let ghost ev = entries_view(entries@);
    if i < entries.len() {
        let ghost kv = key@;
        let ghost vv = value@;
        entries.set(i, (key, value));
        assert(entries_view(entries@) =~= ev.update(i as int, (kv, vv)));
    } else {
        entries.push((key, value));
        assert(entries_view(entries@) =~= ev.push((key@, value@)));
    }
}

/// Removes every entry with key `key` (`Map::remove`).
pub fn object_remove(entries: &mut Vec<(String, JsonValue)>, key: &str)
    ensures
        entries_view(final(entries)@) == entries_remove(entries_view(old(entries)@), key@),
{
    let ghost ev = entries_view(old(entries)@);
    let mut kept: Vec<(String, JsonValue)> = Vec::new();
    let mut rest: Vec<(String, JsonValue)> = Vec::new();
    std::mem::swap(&mut rest, entries);
    let total = rest.len();
    assert(ev.len() == total);
    let mut n: usize = 0;
    assert(ev.take(0) =~= Seq::<(Seq<char>, JsonView)>::empty());
    assert(entries_view(kept@) =~= ev.take(0).filter(key_differs(key@)));
    while rest.len() > 0
        invariant
            ev.len() == n + rest@.len(),
            ev.len() <= usize::MAX,
            forall|j: int| 0 <= j < rest@.len() ==> (#[trigger] rest@[j].0@, rest@[j].1@) == ev[n + j],
            entries_view(kept@) == ev.take(n as int).filter(key_differs(key@)),
        decreases rest.len(),
    {
        let ghost prev = rest@;
        let e = rest.remove(0);
        let ghost x = ev[n as int];
        proof {
            assert((prev[0].0@, prev[0].1@) == ev[n + 0]);
            assert(e == prev[0]);
            assert(x.0 == e.0@);
            assert forall|j: int| 0 <= j < rest@.len() implies (#[trigger] rest@[j].0@, rest@[j].1@) == ev[n + 1 + j] by {
                assert(rest@[j] == prev[j + 1]);
            }
            assert(ev.take(n + 1) =~= ev.take(n as int).push(x));
            ev.take(n as int).lemma_filter_push(x, key_differs(key@));
        }
        if crate::strs::str_eq(e.0.as_str(), key) {
            assert(x.0 == key@);
            assert(!key_differs(key@)(x));
        } else {
            let ghost before = kept@;
            kept.push(e);
            assert(x.0 != key@);
            assert(key_differs(key@)(x));
            assert(entries_view(kept@) =~= entries_view(before).push(x));
        }
        n += 1;
    }
    assert(ev.take(n as int) =~= ev);
    *entries = kept;
}

} // verus!
