//! JSON values.
//!
//! `Json` is the library's own tree. Text is read and written by `serde_json`; a tree goes
//! to and from `serde_json::Value` one level at a time.

use vstd::prelude::*;
use vstd::string::*;

use crate::text::str_eq;

verus! {

/// A JSON number, as `serde_json` holds it.
#[verifier::external_type_specification]
#[verifier::external_body]
pub struct ExNumber(serde_json::Number);

/// A JSON value, as `serde_json` holds it.
#[verifier::external_type_specification]
#[verifier::external_body]
pub struct ExValue(serde_json::Value);

/// A JSON value.
pub enum Json {
    Null,
    Bool(bool),
    Number(serde_json::Number),
    String(String),
    Array(Vec<Json>),
    Object(JsonObject),
}

/// A JSON object: a map from distinct keys to values.
pub struct JsonObject {
    entries: Vec<(String, Json)>,
}

/// A JSON value, as a mathematical value.
pub enum JsonView {
    Null,
    Bool(bool),
    Number(serde_json::Number),
    String(Seq<char>),
    Array(Seq<JsonView>),
    Object(Map<Seq<char>, JsonView>),
}

impl View for Json {
    type V = JsonView;

    open spec fn view(&self) -> JsonView {
        self.tree()
    }
}

impl View for JsonObject {
    type V = Map<Seq<char>, JsonView>;

    open spec fn view(&self) -> Map<Seq<char>, JsonView> {
        self.map()
    }
}

/// `i` is where the entry with this key stands.
spec fn entry_at(entries: Seq<(String, Json)>, k: Seq<char>, i: int) -> bool {
    0 <= i < entries.len() && entries[i].0@ == k
}

impl Json {
    /// The value as a tree.
    pub open spec fn tree(self) -> JsonView
        decreases self,
    {
        match self {
            Json::Null => JsonView::Null,
            Json::Bool(b) => JsonView::Bool(b),
            Json::Number(n) => JsonView::Number(n),
            Json::String(s) => JsonView::String(s@),
            Json::Array(v) => JsonView::Array(
                Seq::new(
                    v@.len(),
                    |i: int|
                        if 0 <= i < v@.len() {
                            v@[i].tree()
                        } else {
                            JsonView::Null
                        },
                ),
            ),
            Json::Object(o) => JsonView::Object(o.map()),
        }
    }
}

impl JsonObject {
    /// The object as a map.
    pub closed spec fn map(self) -> Map<Seq<char>, JsonView>
        decreases self,
    {
        Map::new(
            |k: Seq<char>| exists|i: int| entry_at(self.entries@, k, i),
            |k: Seq<char>|
                {
                    let i = choose|i: int| entry_at(self.entries@, k, i);
                    if 0 <= i < self.entries@.len() {
                        self.entries@[i].1.tree()
                    } else {
                        JsonView::Null
                    }
                },
        )
    }

    /// The keys, in the order in which the entries stand.
    pub closed spec fn keys(self) -> Seq<Seq<char>> {
        self.entries@.map_values(|e: (String, Json)| e.0@)
    }

    #[verifier::type_invariant]
    spec fn inv(self) -> bool {
        self.unique()
    }

    spec fn unique(self) -> bool {
        forall|i: int, j: int|
            0 <= i < self.entries@.len() && 0 <= j < self.entries@.len() && i != j
                ==> (#[trigger] self.entries@[i]).0@ != (#[trigger] self.entries@[j]).0@
    }

    proof fn lemma_entry(self, i: int)
        requires
            self.unique(),
            0 <= i < self.entries@.len(),
        ensures
            self.map().contains_key(self.entries@[i].0@),
            self.map()[self.entries@[i].0@] == self.entries@[i].1.tree(),
    {
        let k = self.entries@[i].0@;
        assert(entry_at(self.entries@, k, i));
        let j = choose|j: int| entry_at(self.entries@, k, j);
        assert(entry_at(self.entries@, k, j));
    }

    /// An object with no entries.
    pub fn new() -> (r: Self)
        ensures
            r@ == Map::<Seq<char>, JsonView>::empty(),
            r.keys() == Seq::<Seq<char>>::empty(),
    {
        let r = JsonObject { entries: Vec::new() };
        assert(r@ =~= Map::<Seq<char>, JsonView>::empty());
        r
    }

    /// How many entries there are.
    pub fn len(&self) -> (r: usize)
        ensures
            r == self.keys().len(),
            forall|k: Seq<char>| #[trigger] self@.contains_key(k) <==> self.keys().contains(k),
    {
        proof {
            assert forall|k: Seq<char>| #[trigger]
                self@.contains_key(k) <==> self.keys().contains(k) by {
                if self.keys().contains(k) {
                    let i = choose|i: int| 0 <= i < self.keys().len() && self.keys()[i] == k;
                    assert(entry_at(self.entries@, k, i));
                }
                if self@.contains_key(k) {
                    let i = choose|i: int| entry_at(self.entries@, k, i);
                    assert(self.keys()[i] == k);
                }
            }
        }
        self.entries.len()
    }

    /// The key of one entry.
    pub fn key_at(&self, i: usize) -> (r: &String)
        requires
            i < self.keys().len(),
        ensures
            r@ == self.keys()[i as int],
            self@.contains_key(r@),
    {
        proof {
            use_type_invariant(self);
            self.lemma_entry(i as int);
        }
        &self.entries[i].0
    }

    /// The value of one entry.
    pub fn value_at(&self, i: usize) -> (r: &Json)
        requires
            i < self.keys().len(),
        ensures
            self@.contains_key(self.keys()[i as int]),
            r@ == self@[self.keys()[i as int]],
            decreases_to!(*self => *r),
    {
        proof {
            use_type_invariant(self);
            self.lemma_entry(i as int);
            assert(decreases_to!(*self => self.entries));
            assert(decreases_to!(self.entries => self.entries@));
            assert(decreases_to!(self.entries@ => self.entries@[i as int]));
            assert(decreases_to!(self.entries@[i as int] => self.entries@[i as int].1));
        }
        &self.entries[i].1
    }

    fn find(&self, key: &str) -> (r: Option<usize>)
        ensures
            match r {
                Some(i) => i < self.entries@.len() && self.entries@[i as int].0@ == key@
                    && self@.contains_key(key@) && self@[key@] == self.entries@[i as int].1@,
                None => !self@.contains_key(key@),
            },
    {
        proof {
            use_type_invariant(self);
        }
        let mut i: usize = 0;
        while i < self.entries.len()
            invariant
                i <= self.entries@.len(),
                self.unique(),
                forall|j: int| 0 <= j < i ==> (#[trigger] self.entries@[j]).0@ != key@,
            decreases self.entries@.len() - i,
        {
            if str_eq(self.entries[i].0.as_str(), key) {
                proof {
                    self.lemma_entry(i as int);
                }
                return Some(i);
            }
            i = i + 1;
        }
        None
    }

    /// The value under a key.
    pub fn get(&self, key: &str) -> (r: Option<&Json>)
        ensures
            match r {
                Some(v) => self@.contains_key(key@) && v@ == self@[key@],
                None => !self@.contains_key(key@),
            },
    {
        match self.find(key) {
            Some(i) => Some(&self.entries[i].1),
            None => None,
        }
    }

    /// Whether there is a value under a key.
    pub fn contains_key(&self, key: &str) -> (r: bool)
        ensures
            r == self@.contains_key(key@),
    {
        self.find(key).is_some()
    }

    /// Takes out the value under a key.
    pub fn remove(&mut self, key: &str) -> (r: Option<Json>)
        ensures
            final(self)@ == old(self)@.remove(key@),
            match r {
                Some(v) => old(self)@.contains_key(key@) && v@ == old(self)@[key@],
                None => !old(self)@.contains_key(key@),
            },
    {
        match self.find(key) {
            Some(i) => {
                let mut held = JsonObject::new();
                core::mem::swap(&mut held, self);
                proof {
                    use_type_invariant(&held);
                }
                let ghost before = held;
                let JsonObject { mut entries } = held;
                let (_, v) = entries.remove(i);
                let after = JsonObject { entries };
                proof {
                    Self::lemma_removed(before, after, i as int);
                }
                *self = after;
                Some(v)
            },
            None => {
                assert(self@.remove(key@) =~= self@);
                None
            },
        }
    }

    proof fn lemma_removed(before: JsonObject, after: JsonObject, i: int)
        requires
            before.unique(),
            after.unique(),
            0 <= i < before.entries@.len(),
            after.entries@ == before.entries@.remove(i),
        ensures
            after.map() == before.map().remove(before.entries@[i].0@),
    {
        let key = before.entries@[i].0@;
        assert forall|k: Seq<char>|
            #![auto]
            after.map().contains_key(k) <==> before.map().remove(key).contains_key(k) by {
            if after.map().contains_key(k) {
                let j = choose|j: int| entry_at(after.entries@, k, j);
                let j0 = if j < i {
                    j
                } else {
                    j + 1
                };
                assert(before.entries@[j0] == after.entries@[j]);
                assert(entry_at(before.entries@, k, j0));
            }
            if before.map().remove(key).contains_key(k) {
                let j0 = choose|j: int| entry_at(before.entries@, k, j);
                assert(j0 != i);
                let j = if j0 < i {
                    j0
                } else {
                    j0 - 1
                };
                assert(before.entries@[j0] == after.entries@[j]);
                assert(entry_at(after.entries@, k, j));
            }
        }
        assert forall|k: Seq<char>| #[trigger] after.map().contains_key(k) implies after.map()[k]
            == before.map()[k] by {
            let j = choose|j: int| entry_at(after.entries@, k, j);
            after.lemma_entry(j);
            let j0 = if j < i {
                j
            } else {
                j + 1
            };
            assert(before.entries@[j0] == after.entries@[j]);
            before.lemma_entry(j0);
        }
        assert(after.map() =~= before.map().remove(key));
    }

    /// Puts a value under a key, in place of the one that was there.
    pub fn insert(&mut self, key: String, value: Json)
        ensures
            final(self)@ == old(self)@.insert(key@, value@),
    {
        let ghost start = self@;
        let _ = self.remove(key.as_str());
        let mut held = JsonObject::new();
        core::mem::swap(&mut held, self);
        proof {
            use_type_invariant(&held);
        }
        let ghost before = held;
        let ghost k0 = key@;
        let ghost v0 = value@;
        let JsonObject { mut entries } = held;
        let ghost e0 = entries@;
        assert forall|i: int| 0 <= i < e0.len() implies (#[trigger] e0[i]).0@ != k0 by {
            before.lemma_entry(i);
        }
        entries.push((key, value));
        let after = JsonObject { entries };
        proof {
            assert forall|k: Seq<char>|
                #![auto]
                after.map().contains_key(k) <==> start.insert(k0, v0).contains_key(k) by {
                if k == k0 {
                    assert(entry_at(after.entries@, k, e0.len() as int));
                } else {
                    if after.map().contains_key(k) {
                        let j = choose|j: int| entry_at(after.entries@, k, j);
                        assert(entry_at(before.entries@, k, j));
                    }
                    if before.map().contains_key(k) {
                        let j = choose|j: int| entry_at(before.entries@, k, j);
                        assert(entry_at(after.entries@, k, j));
                    }
                }
            }
            assert forall|k: Seq<char>| #[trigger] after.map().contains_key(k) implies after.map()[k]
                == start.insert(k0, v0)[k] by {
                let j = choose|j: int| entry_at(after.entries@, k, j);
                after.lemma_entry(j);
                if j < e0.len() {
                    before.lemma_entry(j);
                }
            }
            assert(after.map() =~= start.insert(k0, v0));
        }
        *self = after;
    }
}

/// What a `serde_json::Value` holds, as a tree.
pub uninterp spec fn value_tree(v: serde_json::Value) -> JsonView;

/// What `serde_json` reads from a text: a tree, or the message of the error.
pub uninterp spec fn json_of_text(text: Seq<char>) -> Result<JsonView, Seq<char>>;

/// What `serde_json` reads from bytes: a tree, where they are a JSON text.
pub uninterp spec fn json_of_bytes(bytes: Seq<u8>) -> Option<JsonView>;

/// The text that `serde_json` writes for a tree.
pub uninterp spec fn text_of_json(tree: JsonView) -> Seq<char>;

/// The integer that a `serde_json::Number` is, where it fits.
pub uninterp spec fn number_as_i64(n: serde_json::Number) -> Option<i64>;

/// `serde_json::Number::as_i64`: the number where it is an integer that fits.
pub assume_specification[ serde_json::Number::as_i64 ](n: &serde_json::Number) -> (r: Option<i64>)
    ensures
        r == number_as_i64(*n),
;

/// The number that stands for an integer.
pub uninterp spec fn number_of(n: u64) -> serde_json::Number;

/// `serde_json::Number::from`, of a `u64`: the number that stands for it. An integer that fits
/// is given back by `as_i64`.
#[verifier::external_body]
fn number_from(n: u64) -> (r: serde_json::Number)
    ensures
        r == number_of(n),
        n <= i64::MAX ==> number_as_i64(r) == Some(n as i64),
{
    serde_json::Number::from(n)
}

/// `serde_json::Number::clone`: the same number.
pub assume_specification[ <serde_json::Number as Clone>::clone ](n: &serde_json::Number) -> (r:
    serde_json::Number)
    ensures
        r == *n,
;

/// One level of a `serde_json::Value`.
pub enum Level {
    Null,
    Bool(bool),
    Number(serde_json::Number),
    String(String),
    Array(Vec<serde_json::Value>),
    Object(Vec<(String, serde_json::Value)>),
}

/// No two entries have one key.
pub open spec fn distinct_keys(entries: Seq<(String, serde_json::Value)>) -> bool {
    forall|i: int, j: int|
        0 <= i < entries.len() && 0 <= j < entries.len() && i != j ==> (
        #[trigger] entries[i]).0@ != (#[trigger] entries[j]).0@
}

/// The map holds exactly these entries.
pub open spec fn holds_entries(
    m: Map<Seq<char>, JsonView>,
    entries: Seq<(String, serde_json::Value)>,
) -> bool {
    &&& forall|i: int|
        0 <= i < entries.len() ==> m.contains_key((#[trigger] entries[i]).0@) && m[entries[i].0@]
            == value_tree(entries[i].1)
    &&& forall|k: Seq<char>| #[trigger]
        m.contains_key(k) ==> exists|i: int| 0 <= i < entries.len() && #[trigger] entries[i].0@ == k
}

impl Level {
    /// This is the top level of the tree.
    pub open spec fn shows(self, tree: JsonView) -> bool {
        match self {
            Level::Null => tree is Null,
            Level::Bool(b) => tree == JsonView::Bool(b),
            Level::Number(n) => tree == JsonView::Number(n),
            Level::String(s) => tree == JsonView::String(s@),
            Level::Array(items) => tree is Array && tree->Array_0.len() == items@.len() && (
            forall|i: int|
                0 <= i < items@.len() ==> #[trigger] tree->Array_0[i] == value_tree(items@[i])),
            Level::Object(entries) => tree is Object && distinct_keys(entries@) && holds_entries(
                tree->Object_0,
                entries@,
            ),
        }
    }
}

/// Takes a `serde_json::Value` apart: the variant it is, its items or its entries. The keys
/// of a `serde_json::Map` are distinct.
#[verifier::external_body]
fn open_value(v: serde_json::Value) -> (r: Level)
    ensures
        r.shows(value_tree(v)),
{
    match v {
        serde_json::Value::Null => Level::Null,
        serde_json::Value::Bool(b) => Level::Bool(b),
        serde_json::Value::Number(n) => Level::Number(n),
        serde_json::Value::String(s) => Level::String(s),
        serde_json::Value::Array(items) => Level::Array(items),
        serde_json::Value::Object(m) => Level::Object(m.into_iter().collect()),
    }
}

/// Puts a `serde_json::Value` together from its variant and its items or its entries.
#[verifier::external_body]
fn close_value(level: Level) -> (r: serde_json::Value)
    requires
        level matches Level::Object(entries) ==> distinct_keys(entries@),
    ensures
        level.shows(value_tree(r)),
{
    match level {
        Level::Null => serde_json::Value::Null,
        Level::Bool(b) => serde_json::Value::Bool(b),
        Level::Number(n) => serde_json::Value::Number(n),
        Level::String(s) => serde_json::Value::String(s),
        Level::Array(items) => serde_json::Value::Array(items),
        Level::Object(entries) => serde_json::Value::Object(entries.into_iter().collect()),
    }
}

/// `serde_json::from_str` into a `serde_json::Value`; an error is handed on as its message.
#[verifier::external_body]
fn value_from_str(text: &str) -> (r: Result<serde_json::Value, String>)
    ensures
        match r {
            Ok(v) => json_of_text(text@) == Ok::<JsonView, Seq<char>>(value_tree(v)),
            Err(m) => json_of_text(text@) == Err::<JsonView, Seq<char>>(m@),
        },
{
    serde_json::from_str(text).map_err(|e| e.to_string())
}

/// `serde_json::from_slice` into a `serde_json::Value`.
#[verifier::external_body]
fn value_from_slice(bytes: &[u8]) -> (r: Option<serde_json::Value>)
    ensures
        match r {
            Some(v) => json_of_bytes(bytes@) == Some(value_tree(v)),
            None => json_of_bytes(bytes@) is None,
        },
{
    serde_json::from_slice(bytes).ok()
}

/// `serde_json::to_string` of a `serde_json::Value`, which has no way to fail.
#[verifier::external_body]
fn value_to_string(v: &serde_json::Value) -> (r: String)
    ensures
        r@ == text_of_json(value_tree(*v)),
{
    serde_json::to_string(v).unwrap_or_default()
}

/// The library's tree of a `serde_json::Value`.
fn import(v: serde_json::Value) -> (r: Json)
    ensures
        r@ == value_tree(v),
    decreases value_tree(v),
{
    let ghost tree = value_tree(v);
    match open_value(v) {
        Level::Null => Json::Null,
        Level::Bool(b) => Json::Bool(b),
        Level::Number(n) => Json::Number(n),
        Level::String(s) => Json::String(s),
        Level::Array(items) => {
            let mut out: Vec<Json> = Vec::new();
            let ghost all = items@;
            for item in it: items
                invariant
                    it.seq() == all,
                    tree == value_tree(v),
                    tree is Array,
                    tree->Array_0.len() == all.len(),
                    forall|i: int|
                        0 <= i < all.len() ==> #[trigger] tree->Array_0[i] == value_tree(all[i]),
                    out@.len() == it.index(),
                    forall|i: int| 0 <= i < out@.len() ==> (#[trigger] out@[i])@ == tree->Array_0[i],
            {
                let ghost n = out@.len() as int;
                assert(tree->Array_0[n] == value_tree(all[n]));
                assert(decreases_to!(tree => tree->Array_0[n]));
                out.push(import(item));
            }
            let r = Json::Array(out);
            assert(r@->Array_0 =~= tree->Array_0);
            r
        },
        Level::Object(entries) => {
            let mut out = JsonObject::new();
            let ghost all = entries@;
            let ghost m = tree->Object_0;
            for entry in it: entries
                invariant
                    it.seq() == all,
                    tree == value_tree(v),
                    tree is Object,
                    m == tree->Object_0,
                    distinct_keys(all),
                    holds_entries(m, all),
                    forall|k: Seq<char>| #[trigger]
                        out@.contains_key(k) <==> exists|i: int|
                            0 <= i < it.index() && #[trigger] all[i].0@ == k,
                    forall|k: Seq<char>| #[trigger] out@.contains_key(k) ==> out@[k] == m[k],
            {
                let ghost done = it.index() as int;
                let (key, value) = entry;
                let ghost before = out@;
                let ghost k0 = key@;
                assert(all[done].0@ == k0 && m.contains_key(k0) && m[k0] == value_tree(value));
                assert(decreases_to!(tree => m[k0]));
                out.insert(key, import(value));
                proof {
                    assert forall|k: Seq<char>| #[trigger]
                        out@.contains_key(k) <==> exists|i: int|
                            0 <= i < done + 1 && #[trigger] all[i].0@ == k by {
                        if before.contains_key(k) {
                            let i = choose|i: int| 0 <= i < done && #[trigger] all[i].0@ == k;
                            assert(all[i].0@ == k);
                        }
                        assert(all[done].0@ == k0);
                        if exists|i: int| 0 <= i < done + 1 && #[trigger] all[i].0@ == k {
                            let i = choose|i: int| 0 <= i < done + 1 && #[trigger] all[i].0@ == k;
                            if i < done {
                                assert(before.contains_key(k));
                            }
                        }
                    }
                }
            }
            assert(out@ =~= m) by {
                assert forall|k: Seq<char>| #[trigger] m.contains_key(k) implies out@.contains_key(
                    k,
                ) by {
                    let i = choose|i: int| 0 <= i < all.len() && #[trigger] all[i].0@ == k;
                    assert(all[i].0@ == k);
                }
                assert forall|k: Seq<char>| #[trigger] out@.contains_key(k) implies m.contains_key(
                    k,
                ) by {
                    let i = choose|i: int| 0 <= i < all.len() && #[trigger] all[i].0@ == k;
                    assert(m.contains_key(all[i].0@));
                }
            }
            Json::Object(out)
        },
    }
}

/// The `serde_json::Value` of a tree.
fn export(j: &Json) -> (r: serde_json::Value)
    ensures
        value_tree(r) == j@,
    decreases j,
{
    match j {
        Json::Null => close_value(Level::Null),
        Json::Bool(b) => close_value(Level::Bool(*b)),
        Json::Number(n) => close_value(Level::Number(n.clone())),
        Json::String(s) => close_value(Level::String(s.clone())),
        Json::Array(items) => {
            let mut out: Vec<serde_json::Value> = Vec::new();
            let mut i: usize = 0;
            while i < items.len()
                invariant
                    i <= items@.len(),
                    out@.len() == i,
                    *j == Json::Array(*items),
                    forall|k: int| 0 <= k < i ==> value_tree(#[trigger] out@[k]) == items@[k]@,
                decreases items@.len() - i,
            {
                assert(decreases_to!(*j => j->Array_0));
                assert(decreases_to!(*items => items@));
                assert(decreases_to!(items@ => items@[i as int]));
                out.push(export(&items[i]));
                i = i + 1;
            }
            let ghost built = out@;
            let r = close_value(Level::Array(out));
            proof {
                let t = value_tree(r);
                assert forall|k: int| 0 <= k < t->Array_0.len() implies t->Array_0[k]
                    == j@->Array_0[k] by {
                    assert(t->Array_0[k] == value_tree(built[k]));
                }
                assert(t->Array_0 =~= j@->Array_0);
            }
            r
        },
        Json::Object(o) => {
            proof {
                use_type_invariant(o);
            }
            let mut out: Vec<(String, serde_json::Value)> = Vec::new();
            let mut i: usize = 0;
            while i < o.entries.len()
                invariant
                    i <= o.entries@.len(),
                    out@.len() == i,
                    *j == Json::Object(*o),
                    o.unique(),
                    forall|k: int|
                        0 <= k < i ==> (#[trigger] out@[k]).0@ == o.entries@[k].0@ && value_tree(
                            out@[k].1,
                        ) == o.entries@[k].1@,
                decreases o.entries@.len() - i,
            {
                let e = &o.entries[i];
                assert(decreases_to!(*j => j->Object_0));
                assert(decreases_to!(*o => o.entries));
                assert(decreases_to!(o.entries => o.entries@));
                assert(decreases_to!(o.entries@ => o.entries@[i as int]));
                assert(decreases_to!(o.entries@[i as int] => o.entries@[i as int].1));
                out.push((e.0.clone(), export(&e.1)));
                i = i + 1;
            }
            let ghost built = out@;
            assert(distinct_keys(built)) by {
                assert forall|a: int, b: int|
                    0 <= a < built.len() && 0 <= b < built.len() && a != b implies (
                #[trigger] built[a]).0@ != (#[trigger] built[b]).0@ by {
                    assert(o.entries@[a].0@ != o.entries@[b].0@);
                }
            }
            let r = close_value(Level::Object(out));
            proof {
                let t = value_tree(r)->Object_0;
                assert forall|k: Seq<char>|
                    #![auto]
                    t.contains_key(k) <==> o@.contains_key(k) by {
                    if t.contains_key(k) {
                        let a = choose|a: int| 0 <= a < built.len() && #[trigger] built[a].0@ == k;
                        o.lemma_entry(a);
                    }
                    if o@.contains_key(k) {
                        let a = choose|a: int| entry_at(o.entries@, k, a);
                        assert(built[a].0@ == k);
                    }
                }
                assert forall|k: Seq<char>| #[trigger] t.contains_key(k) implies t[k] == o@[k] by {
                    let a = choose|a: int| 0 <= a < built.len() && #[trigger] built[a].0@ == k;
                    o.lemma_entry(a);
                }
                assert(t =~= o@);
            }
            r
        },
    }
}

impl Json {
    /// Reads a JSON text. An error comes as its message.
    pub fn parse(text: &str) -> (r: Result<Json, String>)
        ensures
            match r {
                Ok(j) => json_of_text(text@) == Ok::<JsonView, Seq<char>>(j@),
                Err(m) => json_of_text(text@) == Err::<JsonView, Seq<char>>(m@),
            },
    {
        match value_from_str(text) {
            Ok(v) => Ok(import(v)),
            Err(m) => Err(m),
        }
    }

    /// Reads JSON bytes.
    pub fn parse_bytes(bytes: &[u8]) -> (r: Option<Json>)
        ensures
            match r {
                Some(j) => json_of_bytes(bytes@) == Some(j@),
                None => json_of_bytes(bytes@) is None,
            },
    {
        match value_from_slice(bytes) {
            Some(v) => Some(import(v)),
            None => None,
        }
    }

    /// The compact JSON text of a value.
    pub fn to_text(&self) -> (r: String)
        ensures
            r@ == text_of_json(self@),
    {
        value_to_string(&export(self))
    }
}

/// A copy of a value.
fn copy(j: &Json) -> (r: Json)
    ensures
        r@ == j@,
    decreases j,
{
    match j {
        Json::Null => Json::Null,
        Json::Bool(b) => Json::Bool(*b),
        Json::Number(n) => Json::Number(n.clone()),
        Json::String(s) => Json::String(s.clone()),
        Json::Array(items) => {
            let mut out: Vec<Json> = Vec::new();
            let mut i: usize = 0;
            while i < items.len()
                invariant
                    i <= items@.len(),
                    out@.len() == i,
                    *j == Json::Array(*items),
                    forall|k: int| 0 <= k < i ==> (#[trigger] out@[k])@ == items@[k]@,
                decreases items@.len() - i,
            {
                assert(decreases_to!(*j => j->Array_0));
                assert(decreases_to!(*items => items@));
                assert(decreases_to!(items@ => items@[i as int]));
                out.push(copy(&items[i]));
                i = i + 1;
            }
            let r = Json::Array(out);
            assert(r@->Array_0 =~= j@->Array_0);
            r
        },
        Json::Object(o) => {
            proof {
                use_type_invariant(o);
            }
            let mut out: Vec<(String, Json)> = Vec::new();
            let mut i: usize = 0;
            while i < o.entries.len()
                invariant
                    i <= o.entries@.len(),
                    out@.len() == i,
                    *j == Json::Object(*o),
                    forall|k: int|
                        0 <= k < i ==> (#[trigger] out@[k]).0@ == o.entries@[k].0@ && out@[k].1@
                            == o.entries@[k].1@,
                decreases o.entries@.len() - i,
            {
                let e = &o.entries[i];
                assert(decreases_to!(*j => j->Object_0));
                assert(decreases_to!(*o => o.entries));
                assert(decreases_to!(o.entries => o.entries@));
                assert(decreases_to!(o.entries@ => o.entries@[i as int]));
                assert(decreases_to!(o.entries@[i as int] => o.entries@[i as int].1));
                out.push((e.0.clone(), copy(&e.1)));
                i = i + 1;
            }
            assert forall|a: int, b: int|
                0 <= a < out@.len() && 0 <= b < out@.len() && a != b implies (
            #[trigger] out@[a]).0@ != (#[trigger] out@[b]).0@ by {
                assert(o.entries@[a].0@ != o.entries@[b].0@);
            }
            let c = JsonObject { entries: out };
            proof {
                assert forall|k: Seq<char>|
                    #![auto]
                    c.map().contains_key(k) <==> o.map().contains_key(k) by {
                    if c.map().contains_key(k) {
                        let a = choose|a: int| entry_at(c.entries@, k, a);
                        o.lemma_entry(a);
                    }
                    if o.map().contains_key(k) {
                        let a = choose|a: int| entry_at(o.entries@, k, a);
                        c.lemma_entry(a);
                    }
                }
                assert forall|k: Seq<char>| #[trigger] c.map().contains_key(k) implies c.map()[k]
                    == o.map()[k] by {
                    let a = choose|a: int| entry_at(c.entries@, k, a);
                    c.lemma_entry(a);
                    o.lemma_entry(a);
                }
                assert(c.map() =~= o.map());
            }
            Json::Object(c)
        },
    }
}

impl Clone for Json {
    fn clone(&self) -> (r: Self)
        ensures
            r@ == self@,
    {
        copy(self)
    }
}

impl JsonView {
    /// The value under a key, where this is an object that has it.
    pub open spec fn field(self, key: Seq<char>) -> Option<JsonView> {
        match self {
            JsonView::Object(m) => if m.contains_key(key) {
                Some(m[key])
            } else {
                None
            },
            _ => None,
        }
    }

    /// The text, where this is a string.
    pub open spec fn as_text(self) -> Option<Seq<char>> {
        match self {
            JsonView::String(s) => Some(s),
            _ => None,
        }
    }

    /// The integer, where this is a number that is one and fits.
    pub open spec fn as_int(self) -> Option<i64> {
        match self {
            JsonView::Number(n) => number_as_i64(n),
            _ => None,
        }
    }
}

impl Json {
    /// The value under a key, where this is an object that has it.
    pub fn get(&self, key: &str) -> (r: Option<&Json>)
        ensures
            match r {
                Some(v) => self@.field(key@) == Some(v@),
                None => self@.field(key@) is None,
            },
    {
        match self {
            Json::Object(o) => o.get(key),
            _ => None,
        }
    }

    /// The text, where this is a string.
    pub fn as_str(&self) -> (r: Option<&str>)
        ensures
            match r {
                Some(s) => self@.as_text() == Some(s@),
                None => self@.as_text() is None,
            },
    {
        match self {
            Json::String(s) => Some(s.as_str()),
            _ => None,
        }
    }

    /// The value of an integer.
    pub fn integer(n: u64) -> (r: Json)
        ensures
            r@ == JsonView::Number(number_of(n)),
            n <= i64::MAX ==> r@.as_int() == Some(n as i64),
    {
        Json::Number(number_from(n))
    }

    /// The value of a text.
    pub fn text(s: &str) -> (r: Json)
        ensures
            r@ == JsonView::String(s@),
    {
        Json::String(String::from_str(s))
    }

    /// The integer, where this is a number that is one and fits.
    pub fn as_i64(&self) -> (r: Option<i64>)
        ensures
            r == self@.as_int(),
    {
        match self {
            Json::Number(n) => n.as_i64(),
            _ => None,
        }
    }
}

} // verus!
