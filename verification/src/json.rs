//! JSON documents, held as `serde_json::Value` and described by `JsonTree`.
//!
//! Every operation on a JSON value goes through a small trusted wrapper around
//! one `serde_json` function; the wrappers speak of the value's tree, its
//! contents as `json_tree` names them.
use vstd::prelude::*;
use crate::text::{
    chars_increasing, chars_lt, lemma_chars_lt_irreflexive, lemma_chars_lt_transitive, strings_view,
};

verus! {

#[verifier::external_type_specification]
#[verifier::external_body]
pub struct ExJsonValue(serde_json::Value);

/// A JSON number as `serde_json` stores it: a non-negative integer, a negative
/// integer, or a float (held here by its bit pattern).
pub ghost enum JsonNum {
    PosInt(nat),
    NegInt(int),
    Float(nat),
}

/// The mathematical content of a JSON value. Objects are maps from keys to values
/// (serde_json's default map keeps one value per key, ordered by key).
pub ghost enum JsonTree {
    Null,
    Bool(bool),
    Num(JsonNum),
    Str(Seq<char>),
    Arr(Seq<JsonTree>),
    Obj(Map<Seq<char>, JsonTree>),
}

/// What a `serde_json::Value` holds.
pub uninterp spec fn json_tree(v: serde_json::Value) -> JsonTree;

/// What `serde_json::from_str::<Value>` yields for a text: `None` where it reports an error.
pub uninterp spec fn json_parse(text: Seq<char>) -> Option<JsonTree>;

/// The compact text that `serde_json::to_string` writes for a value.
pub uninterp spec fn json_text(t: JsonTree) -> Seq<char>;

/// The member `key` of an object; `None` for a missing key or a non-object.
pub open spec fn obj_get(t: JsonTree, key: Seq<char>) -> Option<JsonTree> {
    match t {
        JsonTree::Obj(m) => if m.contains_key(key) {
            Some(m[key])
        } else {
            None
        },
        _ => None,
    }
}

/// `t[key]` as serde_json's `Index` gives it: the member, or `Null`.
pub open spec fn obj_index(t: JsonTree, key: Seq<char>) -> JsonTree {
    match obj_get(t, key) {
        Some(c) => c,
        None => JsonTree::Null,
    }
}

/// Element `i` of an array; `None` out of range or for a non-array.
pub open spec fn arr_get(t: JsonTree, i: int) -> Option<JsonTree> {
    match t {
        JsonTree::Arr(items) => if 0 <= i < items.len() {
            Some(items[i])
        } else {
            None
        },
        _ => None,
    }
}

/// The string held by `t`, if it is a string.
pub open spec fn as_str(t: JsonTree) -> Option<Seq<char>> {
    match t {
        JsonTree::Str(s) => Some(s),
        _ => None,
    }
}

/// The boolean held by `t`, if it is a boolean.
pub open spec fn as_bool(t: JsonTree) -> Option<bool> {
    match t {
        JsonTree::Bool(b) => Some(b),
        _ => None,
    }
}

/// The number held by `t` when it is a non-negative integer.
pub open spec fn as_u64(t: JsonTree) -> Option<nat> {
    match t {
        JsonTree::Num(JsonNum::PosInt(n)) => Some(n),
        _ => None,
    }
}

/// `t`'s member `key` read as a string (`v.get(key).and_then(Value::as_str)`).
pub open spec fn str_member(t: JsonTree, key: Seq<char>) -> Option<Seq<char>> {
    match obj_get(t, key) {
        Some(c) => as_str(c),
        None => None,
    }
}

/// The map that inserting the entries in order builds (later keys win).
pub open spec fn map_of(entries: Seq<(Seq<char>, JsonTree)>) -> Map<Seq<char>, JsonTree>
    decreases entries.len(),
{
    if entries.len() == 0 {
        Map::empty()
    } else {
        map_of(entries.drop_last()).insert(entries.last().0, entries.last().1)
    }
}

/// The message of the error that `serde_json::from_str::<Value>` reports for a
/// text it cannot parse (the error's `Display`).
pub uninterp spec fn json_error_text(text: Seq<char>) -> Seq<char>;

/// Parses a JSON document (`serde_json::from_str::<Value>`), giving the error's
/// message on a syntax error.
#[verifier::external_body]
pub(crate) fn parse_json_reporting(text: &str) -> (r: Result<serde_json::Value, String>)
    ensures
        r is Ok <==> json_parse(text@) is Some,
        r matches Ok(v) ==> json_tree(v) == json_parse(text@)->0,
        r matches Err(e) ==> e@ == json_error_text(text@),
{
    match serde_json::from_str::<serde_json::Value>(text) {
        Ok(v) => Ok(v),
        Err(e) => Err(e.to_string()),
    }
}

/// Parses a JSON document; `None` on a syntax error.
pub fn parse_json(text: &str) -> (r: Option<serde_json::Value>)
    ensures
        r is Some <==> json_parse(text@) is Some,
        r matches Some(v) ==> json_tree(v) == json_parse(text@)->0,
{
    match parse_json_reporting(text) {
        Ok(v) => Some(v),
        Err(_) => None,
    }
}

/// `Value::get` with a key: the member of an object.
#[verifier::external_body]
pub(crate) fn json_get<'a>(v: &'a serde_json::Value, key: &str) -> (r: Option<&'a serde_json::Value>)
    ensures
        r is Some <==> obj_get(json_tree(*v), key@) is Some,
        r matches Some(c) ==> json_tree(*c) == obj_get(json_tree(*v), key@)->0,
{
    v.get(key)
}

/// `Value::get` with an index: an element of an array.
#[verifier::external_body]
pub(crate) fn json_at<'a>(v: &'a serde_json::Value, i: usize) -> (r: Option<&'a serde_json::Value>)
    ensures
        r is Some <==> arr_get(json_tree(*v), i as int) is Some,
        r matches Some(c) ==> json_tree(*c) == arr_get(json_tree(*v), i as int)->0,
{
    v.get(i)
}

/// `v[key]` (`Index<&str>` for `Value`): the member, or `Null` when there is none.
#[verifier::external_body]
pub(crate) fn json_index<'a>(v: &'a serde_json::Value, key: &str) -> (r: &'a serde_json::Value)
    ensures
        json_tree(*r) == obj_index(json_tree(*v), key@),
{
    &v[key]
}

/// `Value::as_str`.
#[verifier::external_body]
pub(crate) fn json_as_str<'a>(v: &'a serde_json::Value) -> (r: Option<&'a str>)
    ensures
        r is Some <==> as_str(json_tree(*v)) is Some,
        r matches Some(s) ==> s@ == as_str(json_tree(*v))->0,
{
    v.as_str()
}

/// `Value::as_bool`.
#[verifier::external_body]
pub(crate) fn json_as_bool(v: &serde_json::Value) -> (r: Option<bool>)
    ensures
        r == as_bool(json_tree(*v)),
{
    v.as_bool()
}

/// `Value::as_u64`.
#[verifier::external_body]
pub(crate) fn json_as_u64(v: &serde_json::Value) -> (r: Option<u64>)
    ensures
        r is Some <==> as_u64(json_tree(*v)) is Some,
        r matches Some(n) ==> n == as_u64(json_tree(*v))->0,
{
    v.as_u64()
}

/// `Value::is_object`.
#[verifier::external_body]
pub(crate) fn json_is_object(v: &serde_json::Value) -> (r: bool)
    ensures
        r <==> json_tree(*v) is Obj,
{
    v.is_object()
}

/// `Value::as_array`.
#[verifier::external_body]
pub(crate) fn json_as_array<'a>(v: &'a serde_json::Value) -> (r: Option<&'a Vec<serde_json::Value>>)
    ensures
        r is Some <==> json_tree(*v) is Arr,
        r matches Some(a) ==> a@.len() == json_tree(*v)->Arr_0.len() && forall|i: int|
            0 <= i < a@.len() ==> json_tree(#[trigger] a@[i]) == json_tree(*v)->Arr_0[i],
{
    v.as_array()
}

/// `Value::clone`.
#[verifier::external_body]
pub(crate) fn json_clone(v: &serde_json::Value) -> (r: serde_json::Value)
    ensures
        json_tree(r) == json_tree(*v),
{
    v.clone()
}

/// `serde_json::to_string` of a value (which cannot fail for a `Value`).
#[verifier::external_body]
pub(crate) fn json_to_text(v: &serde_json::Value) -> (r: String)
    ensures
        r@ == json_text(json_tree(*v)),
{
    serde_json::to_string(v).unwrap_or_default()
}

/// A JSON string (`Value::String`).
#[verifier::external_body]
pub(crate) fn json_string(s: &str) -> (r: serde_json::Value)
    ensures
        json_tree(r) == JsonTree::Str(s@),
{
    serde_json::Value::String(s.to_owned())
}

/// A JSON non-negative integer (`Value::from(u64)`).
#[verifier::external_body]
pub(crate) fn json_u64(n: u64) -> (r: serde_json::Value)
    ensures
        json_tree(r) == JsonTree::Num(JsonNum::PosInt(n as nat)),
{
    serde_json::Value::from(n)
}

/// A JSON boolean (`Value::Bool`).
#[verifier::external_body]
pub(crate) fn json_bool(b: bool) -> (r: serde_json::Value)
    ensures
        json_tree(r) == JsonTree::Bool(b),
{
    serde_json::Value::Bool(b)
}

/// A JSON array of the given values (`Value::Array`).
#[verifier::external_body]
pub(crate) fn json_array(items: Vec<serde_json::Value>) -> (r: serde_json::Value)
    ensures
        json_tree(r) == JsonTree::Arr(trees(items@)),
{
    serde_json::Value::Array(items)
}

/// The trees of a list of values.
pub open spec fn trees(v: Seq<serde_json::Value>) -> Seq<JsonTree> {
    v.map_values(|x: serde_json::Value| json_tree(x))
}

/// The keys and trees of a list of object entries.
pub open spec fn entries_view(e: Seq<(String, serde_json::Value)>) -> Seq<(Seq<char>, JsonTree)> {
    e.map_values(|x: (String, serde_json::Value)| (x.0@, json_tree(x.1)))
}

/// Appends the entry `key: val` to a list of object entries.
pub fn push_entry(entries: &mut Vec<(String, serde_json::Value)>, key: &str, val: serde_json::Value)
    ensures
        entries_view(final(entries)@) == entries_view(old(entries)@).push((key@, json_tree(val))),
        map_of(entries_view(final(entries)@)) == map_of(entries_view(old(entries)@)).insert(
            key@,
            json_tree(val),
        ),
        keys_distinct(entries_view(final(entries)@)) == (keys_distinct(entries_view(old(entries)@))
            && !has_key(entries_view(old(entries)@), key@)),
{
    let ghost t = json_tree(val);
    entries.push((key.to_owned(), val));
    proof {
        assert(entries_view(entries@) =~= entries_view(old(entries)@).push((key@, t)));
        assert(entries_view(entries@).drop_last() =~= entries_view(old(entries)@));
    }
}

/// No key occurs twice among the entries.
pub open spec fn keys_distinct(es: Seq<(Seq<char>, JsonTree)>) -> bool {
    forall|i: int, j: int| 0 <= i < j < es.len() ==> (#[trigger] es[i]).0 != (#[trigger] es[j]).0
}

/// Some entry has the key `k`.
pub open spec fn has_key(es: Seq<(Seq<char>, JsonTree)>, k: Seq<char>) -> bool {
    exists|i: int| 0 <= i < es.len() && (#[trigger] es[i]).0 == k
}

/// Entries of at most four, with pairwise different keys, have distinct keys.
pub proof fn lemma_few_keys_distinct(es: Seq<(Seq<char>, JsonTree)>)
    requires
        es.len() <= 4,
        forall|i: int, j: int|
            0 <= i < j < es.len() ==> #[trigger] es[i].0.len() != #[trigger] es[j].0.len() || es[i].0
                != es[j].0,
    ensures
        keys_distinct(es),
{
    assert forall|i: int, j: int| 0 <= i < j < es.len() implies (#[trigger] es[i]).0 != (
    #[trigger] es[j]).0 by {
        if es[i].0 == es[j].0 {
            assert(es[i].0.len() == es[j].0.len());
        }
    }
}

/// A JSON object holding the entries, collected into a `serde_json::Map` (a
/// `BTreeMap`): each key once. With distinct keys the object is exactly the
/// entries; for a key given twice, std keeps one of its values without saying
/// which, so that case is stated only as "one of the values given".
#[verifier::external_body]
pub(crate) fn json_object(entries: Vec<(String, serde_json::Value)>) -> (r: serde_json::Value)
    ensures
        keys_distinct(entries_view(entries@)) ==> json_tree(r) == JsonTree::Obj(
            map_of(entries_view(entries@)),
        ),
        json_tree(r) is Obj,
        forall|k: Seq<char>|
            #[trigger] json_tree(r)->Obj_0.contains_key(k) <==> has_key(entries_view(entries@), k),
        forall|k: Seq<char>|
            #[trigger] json_tree(r)->Obj_0.contains_key(k) ==> exists|i: int|
                0 <= i < entries@.len() && (#[trigger] entries_view(entries@)[i]) == (
                    k,
                    json_tree(r)->Obj_0[k],
                ),
{
    serde_json::Value::Object(entries.into_iter().collect())
}

/// `v.get(key).and_then(Value::as_str)`, owned.
pub fn str_field(v: &serde_json::Value, key: &str) -> (r: Option<String>)
    ensures
        r is Some <==> str_member(json_tree(*v), key@) is Some,
        r matches Some(s) ==> s@ == str_member(json_tree(*v), key@)->0,
{
    match json_get(v, key) {
        Some(c) => match json_as_str(c) {
            Some(s) => Some(s.to_owned()),
            None => None,
        },
        None => None,
    }
}

/// An empty JSON object.
pub fn json_empty_object() -> (r: serde_json::Value)
    ensures
        json_tree(r) == JsonTree::Obj(Map::empty()),
{
    let e: Vec<(String, serde_json::Value)> = Vec::new();
    proof {
        assert(entries_view(e@) =~= Seq::empty());
    }
    let r = json_object(e);
    r
}

/// `ks` lists the keys of `m` in ascending order, each once.
pub open spec fn keys_in_order(ks: Seq<Seq<char>>, m: Map<Seq<char>, JsonTree>) -> bool {
    &&& chars_increasing(ks)
    &&& forall|k: Seq<char>| #[trigger] m.contains_key(k) <==> ks.contains(k)
}

/// The keys of `m` in ascending order: the order in which serde_json's map,
/// ordered by key, walks an object.
pub open spec fn ordered_keys(m: Map<Seq<char>, JsonTree>) -> Seq<Seq<char>> {
    choose|ks: Seq<Seq<char>>| keys_in_order(ks, m)
}

/// Two ascending lists of the same keys are the same list.
pub proof fn lemma_increasing_unique(a: Seq<Seq<char>>, b: Seq<Seq<char>>)
    requires
        chars_increasing(a),
        chars_increasing(b),
        forall|k: Seq<char>| a.contains(k) <==> b.contains(k),
    ensures
        a == b,
    decreases a.len(),
{
    if a.len() == 0 {
        if b.len() > 0 {
            assert(b.contains(b[0]));
        }
        assert(a =~= b);
    } else {
        assert(a.contains(a[0]));
        assert(b.contains(a[0]));
        assert(b.contains(b[0]));
        assert(a.contains(b[0]));
        let j = choose|j: int| 0 <= j < b.len() && b[j] == a[0];
        let i = choose|i: int| 0 <= i < a.len() && a[i] == b[0];
        if j > 0 {
            assert(chars_lt(b[0], b[j]));
            if i > 0 {
                assert(chars_lt(a[0], a[i]));
                lemma_chars_lt_transitive(a[0], a[i], a[0]);
            }
            lemma_chars_lt_irreflexive(a[0]);
        }
        assert(a[0] == b[0]);
        let a1 = a.drop_first();
        let b1 = b.drop_first();
        assert forall|k: Seq<char>| a1.contains(k) <==> b1.contains(k) by {
            if a1.contains(k) {
                let x = choose|x: int| 0 <= x < a1.len() && a1[x] == k;
                assert(a[x + 1] == k);
                assert(chars_lt(a[0], a[x + 1]));
                lemma_chars_lt_irreflexive(k);
                assert(a.contains(k));
                let y = choose|y: int| 0 <= y < b.len() && b[y] == k;
                assert(y != 0);
                assert(b1[y - 1] == k);
            }
            if b1.contains(k) {
                let x = choose|x: int| 0 <= x < b1.len() && b1[x] == k;
                assert(b[x + 1] == k);
                assert(chars_lt(b[0], b[x + 1]));
                lemma_chars_lt_irreflexive(k);
                assert(b.contains(k));
                let y = choose|y: int| 0 <= y < a.len() && a[y] == k;
                assert(y != 0);
                assert(a1[y - 1] == k);
            }
        }
        assert(chars_increasing(a1)) by {
            assert forall|x: int, y: int| 0 <= x < y < a1.len() implies chars_lt(
                #[trigger] a1[x],
                #[trigger] a1[y],
            ) by {
                assert(a1[x] == a[x + 1] && a1[y] == a[y + 1]);
            }
        }
        assert(chars_increasing(b1)) by {
            assert forall|x: int, y: int| 0 <= x < y < b1.len() implies chars_lt(
                #[trigger] b1[x],
                #[trigger] b1[y],
            ) by {
                assert(b1[x] == b[x + 1] && b1[y] == b[y + 1]);
            }
        }
        lemma_increasing_unique(a1, b1);
        assert(a =~= seq![a[0]] + a1);
        assert(b =~= seq![b[0]] + b1);
    }
}

/// A list of the keys of `m` in ascending order is `ordered_keys(m)`.
pub proof fn lemma_ordered_keys(ks: Seq<Seq<char>>, m: Map<Seq<char>, JsonTree>)
    requires
        keys_in_order(ks, m),
    ensures
        ordered_keys(m) == ks,
{
    let o = ordered_keys(m);
    assert(keys_in_order(o, m));
    assert forall|k: Seq<char>| o.contains(k) <==> ks.contains(k) by {
        assert(m.contains_key(k) <==> o.contains(k));
        assert(m.contains_key(k) <==> ks.contains(k));
    }
    lemma_increasing_unique(o, ks);
}

/// The keys of an object, in the map's order (`Map::keys` of `Value::as_object`);
/// `None` for a value that is not an object.
#[verifier::external_body]
pub(crate) fn json_keys(v: &serde_json::Value) -> (r: Option<Vec<String>>)
    ensures
        r is Some <==> json_tree(*v) is Obj,
        r matches Some(ks) ==> keys_in_order(strings_view(ks@), json_tree(*v)->Obj_0),
{
    match v.as_object() {
        Some(m) => Some(m.keys().cloned().collect()),
        None => None,
    }
}

} // verus!
