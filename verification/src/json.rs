//! JSON values as plain data, read and written through `serde_json`.
use crate::text::{decimal, int_text, opt_text, same, texts};
use vstd::prelude::*;

verus! {

/// A JSON value. Where an object names a key more than once, the last entry
/// holds.
pub enum Json {
    Null,
    Bool(bool),
    Number(serde_json::Number),
    Str(String),
    Array(Vec<Json>),
    Object(Vec<(String, Json)>),
}

/// What a JSON value is: its object keys carry no order.
pub enum JsonV {
    Null,
    Bool(bool),
    Number(serde_json::Number),
    Str(Seq<char>),
    Array(Seq<JsonV>),
    Object(Map<Seq<char>, JsonV>),
}

/// One level of a `serde_json` value.
pub enum Node {
    Null,
    Bool(bool),
    Number(serde_json::Number),
    Str(String),
    Array(Vec<serde_json::Value>),
    Object(Vec<(String, serde_json::Value)>),
}

/// A JSON value as `serde_json` holds it.
#[verifier::external_type_specification]
#[verifier::external_body]
pub struct ExValue(serde_json::Value);

/// A JSON number as `serde_json` holds it.
#[verifier::external_type_specification]
#[verifier::external_body]
pub struct ExNumber(serde_json::Number);

/// A `serde_json` parse failure.
#[verifier::external_type_specification]
#[verifier::external_body]
pub struct ExJsonError(serde_json::Error);

/// What a `serde_json::Value` holds.
pub uninterp spec fn value_tree(v: serde_json::Value) -> JsonV;

/// What `serde_json::from_str` reads from a text; `None` where it fails.
pub uninterp spec fn json_parsed(text: Seq<char>) -> Option<JsonV>;

/// The compact text that `serde_json::to_string` writes for a value.
pub uninterp spec fn json_text(t: JsonV) -> Seq<char>;

/// The indented text that `serde_json::to_string_pretty` writes for a value.
pub uninterp spec fn json_pretty(t: JsonV) -> Seq<char>;

/// Whether `serde_json` counts two values as equal.
pub uninterp spec fn values_equal(a: JsonV, b: JsonV) -> bool;

/// The number that `serde_json::Number::from` makes of an integer.
pub uninterp spec fn int_number(i: i64) -> serde_json::Number;

/// The number that `serde_json::Number::from` makes of an unsigned integer.
pub uninterp spec fn unsigned_number(u: u64) -> serde_json::Number;

/// What `serde_json::Number::as_i64` gives of a number.
pub uninterp spec fn number_int(n: serde_json::Number) -> Option<i64>;

/// The text that the `Display` of `serde_json::Number` writes.
pub uninterp spec fn number_shown(n: serde_json::Number) -> Seq<char>;

/// A number as a floating-point number with two decimal places.
pub uninterp spec fn number_fixed(n: serde_json::Number) -> Seq<char>;

/// What one level holds, given what the values below it hold.
pub open spec fn node_tree(n: Node) -> JsonV {
    match n {
        Node::Null => JsonV::Null,
        Node::Bool(b) => JsonV::Bool(b),
        Node::Number(x) => JsonV::Number(x),
        Node::Str(s) => JsonV::Str(s@),
        Node::Array(v) => JsonV::Array(Seq::new(v@.len(), |i: int| value_tree(v@[i]))),
        Node::Object(es) => JsonV::Object(
            pairs_map(Seq::new(es@.len(), |i: int| (es@[i].0@, value_tree(es@[i].1)))),
        ),
    }
}

/// Whether no key stands twice.
pub open spec fn distinct_keys(es: Seq<(String, serde_json::Value)>) -> bool {
    forall|i: int, j: int|
        0 <= i < j < es.len() ==> (#[trigger] es[i]).0@ != (#[trigger] es[j]).0@
}

/// The map of a list of pairs; a later pair replaces an earlier one.
pub open spec fn pairs_map(s: Seq<(Seq<char>, JsonV)>) -> Map<Seq<char>, JsonV>
    decreases s.len(),
{
    if s.len() == 0 {
        Map::empty()
    } else {
        pairs_map(s.drop_last()).insert(s.last().0, s.last().1)
    }
}

/// `serde_json::from_str` into a `Value`: it succeeds on the texts that
/// `json_parsed` gives a value for, and yields that value.
#[verifier::external_body]
fn parse_value(s: &str) -> (r: Result<serde_json::Value, serde_json::Error>)
    ensures
        match r {
            Ok(v) => json_parsed(s@) == Some(value_tree(v)),
            Err(_) => json_parsed(s@) is None,
        },
{
    serde_json::from_str(s)
}

/// Takes a `serde_json::Value` apart by one level: the variant and its fields
/// as they are, an object's entries as a list in which no key stands twice.
#[verifier::external_body]
fn value_node(v: serde_json::Value) -> (r: Node)
    ensures
        node_tree(r) == value_tree(v),
        match r {
            Node::Object(es) => distinct_keys(es@),
            _ => true,
        },
{
    match v {
        serde_json::Value::Null => Node::Null,
        serde_json::Value::Bool(b) => Node::Bool(b),
        serde_json::Value::Number(n) => Node::Number(n),
        serde_json::Value::String(s) => Node::Str(s),
        serde_json::Value::Array(a) => Node::Array(a),
        serde_json::Value::Object(m) => Node::Object(m.into_iter().collect()),
    }
}

/// Puts a `serde_json::Value` together from one level: the same variant with
/// the same fields, an object's entries collected into its map.
#[verifier::external_body]
fn node_value(n: Node) -> (r: serde_json::Value)
    requires
        match n {
            Node::Object(es) => distinct_keys(es@),
            _ => true,
        },
    ensures
        value_tree(r) == node_tree(n),
{
    match n {
        Node::Null => serde_json::Value::Null,
        Node::Bool(b) => serde_json::Value::Bool(b),
        Node::Number(n) => serde_json::Value::Number(n),
        Node::Str(s) => serde_json::Value::String(s),
        Node::Array(a) => serde_json::Value::Array(a),
        Node::Object(es) => serde_json::Value::Object(es.into_iter().collect()),
    }
}

/// The `Display` of `serde_json::Value`, which writes the compact JSON text.
#[verifier::external_body]
fn value_text(v: &serde_json::Value) -> (r: String)
    ensures
        r@ == json_text(value_tree(*v)),
{
    v.to_string()
}

/// The alternate `Display` of `serde_json::Value`, which writes the indented
/// JSON text that `serde_json::to_string_pretty` writes too.
#[verifier::external_body]
fn value_pretty(v: &serde_json::Value) -> (r: String)
    ensures
        r@ == json_pretty(value_tree(*v)),
{
    format!("{:#}", v)
}

/// `PartialEq` of `serde_json::Value`, which holds of a value and itself.
#[verifier::external_body]
fn same_values(a: &serde_json::Value, b: &serde_json::Value) -> (r: bool)
    ensures
        r == values_equal(value_tree(*a), value_tree(*b)),
        value_tree(*a) == value_tree(*b) ==> r,
{
    a == b
}

/// `serde_json::Number::from` an integer: the number reads back as that integer
/// and is written as its decimal text.
#[verifier::external_body]
fn number_from(i: i64) -> (r: serde_json::Number)
    ensures
        r == int_number(i),
        number_int(r) == Some(i),
        number_shown(r) == int_text(i as int),
{
    serde_json::Number::from(i)
}

/// `serde_json::Number::from` an unsigned integer: the number is written as its
/// decimal text.
#[verifier::external_body]
fn number_from_unsigned(u: u64) -> (r: serde_json::Number)
    ensures
        r == unsigned_number(u),
        number_shown(r) == decimal(u as nat),
{
    serde_json::Number::from(u)
}

/// `serde_json::Number::as_i64`: the integer that the number is, where it is
/// one that fits.
#[verifier::external_body]
fn number_as_i64(n: &serde_json::Number) -> (r: Option<i64>)
    ensures
        r == number_int(*n),
{
    n.as_i64()
}

/// The `Display` of `serde_json::Number`.
#[verifier::external_body]
fn number_text(n: &serde_json::Number) -> (r: String)
    ensures
        r@ == number_shown(*n),
{
    n.to_string()
}

/// `serde_json::Number::as_f64`, written with two decimal places; zero where it
/// gives none.
#[verifier::external_body]
fn number_two_places(n: &serde_json::Number) -> (r: String)
    ensures
        r@ == number_fixed(*n),
{
    format!("{:.2}", n.as_f64().unwrap_or_default())
}

/// `Clone` of `serde_json::Number`, a derived copy of its fields.
#[verifier::external_body]
fn number_copy(n: &serde_json::Number) -> (r: serde_json::Number)
    ensures
        r == *n,
{
    n.clone()
}

/// What a list of JSON values is.
pub open spec fn trees(v: Seq<Json>) -> Seq<JsonV>
    decreases v,
{
    Seq::new(
        v.len(),
        |i: int|
            if 0 <= i < v.len() {
                v[i].tree()
            } else {
                JsonV::Null
            },
    )
}

/// What a list of object entries is.
pub open spec fn entries(v: Seq<(String, Json)>) -> Seq<(Seq<char>, JsonV)>
    decreases v,
{
    Seq::new(
        v.len(),
        |i: int|
            if 0 <= i < v.len() {
                (v[i].0@, v[i].1.tree())
            } else {
                (Seq::empty(), JsonV::Null)
            },
    )
}

/// The value under a key of an object.
pub open spec fn field(t: JsonV, key: Seq<char>) -> Option<JsonV> {
    match t {
        JsonV::Object(m) => if m.contains_key(key) {
            Some(m[key])
        } else {
            None
        },
        _ => None,
    }
}

/// The text that a value is, if it is one.
pub open spec fn str_of(t: JsonV) -> Option<Seq<char>> {
    match t {
        JsonV::Str(s) => Some(s),
        _ => None,
    }
}

/// The text under a key of an object.
pub open spec fn str_field(t: JsonV, key: Seq<char>) -> Option<Seq<char>> {
    match field(t, key) {
        Some(v) => str_of(v),
        None => None,
    }
}

/// The items under a key of an object.
pub open spec fn array_field(t: JsonV, key: Seq<char>) -> Option<Seq<JsonV>> {
    match field(t, key) {
        Some(JsonV::Array(a)) => Some(a),
        _ => None,
    }
}

/// The last pair with a key is the one that holds.
proof fn lemma_pairs_map_get(s: Seq<(Seq<char>, JsonV)>, key: Seq<char>, i: int)
    requires
        0 <= i < s.len(),
        s[i].0 == key,
        forall|k: int| i < k < s.len() ==> (#[trigger] s[k]).0 != key,
    ensures
        pairs_map(s).contains_key(key),
        pairs_map(s)[key] == s[i].1,
    decreases s.len(),
{
    if i < s.len() - 1 {
        let t = s.drop_last();
        assert forall|k: int| i < k < t.len() implies (#[trigger] t[k]).0 != key by {
            assert(t[k] == s[k]);
        }
        lemma_pairs_map_get(t, key, i);
        assert(s[s.len() - 1].0 != key);
    }
}

/// A key that no pair names is not in the map.
proof fn lemma_pairs_map_none(s: Seq<(Seq<char>, JsonV)>, key: Seq<char>)
    requires
        forall|k: int| 0 <= k < s.len() ==> (#[trigger] s[k]).0 != key,
    ensures
        !pairs_map(s).contains_key(key),
    decreases s.len(),
{
    if s.len() > 0 {
        let t = s.drop_last();
        assert forall|k: int| 0 <= k < t.len() implies (#[trigger] t[k]).0 != key by {
            assert(t[k] == s[k]);
        }
        lemma_pairs_map_none(t, key);
        assert(s[s.len() - 1].0 != key);
    }
}

/// A map of pairs maps each key that some pair names to the value of the last
/// such pair, and no other key.
proof fn lemma_pairs_map_is(s: Seq<(Seq<char>, JsonV)>, key: Seq<char>) -> (i: int)
    ensures
        pairs_map(s).contains_key(key) ==> 0 <= i < s.len() && s[i].0 == key && pairs_map(s)[key]
            == s[i].1 && forall|k: int| i < k < s.len() ==> (#[trigger] s[k]).0 != key,
    decreases s.len(),
{
    if s.len() == 0 {
        0
    } else if s.last().0 == key {
        s.len() - 1
    } else {
        let t = s.drop_last();
        let i = lemma_pairs_map_is(t, key);
        if pairs_map(t).contains_key(key) {
            assert forall|k: int| i < k < s.len() implies (#[trigger] s[k]).0 != key by {
                if k < t.len() {
                    assert(t[k] == s[k]);
                }
            }
        }
        i
    }
}

/// The map of a list of pairs is finite.
proof fn lemma_pairs_map_finite(s: Seq<(Seq<char>, JsonV)>)
    ensures
        pairs_map(s).dom().finite(),
    decreases s.len(),
{
    if s.len() > 0 {
        lemma_pairs_map_finite(s.drop_last());
    }
}

/// The object that a value is has finitely many keys.
pub proof fn lemma_tree_finite(j: Json)
    ensures
        match j.tree() {
            JsonV::Object(m) => m.dom().finite(),
            _ => true,
        },
{
    match j {
        Json::Object(es) => lemma_pairs_map_finite(entries(es@)),
        _ => {},
    }
}

/// The keys of an object are those that its entries name.
pub proof fn lemma_object_keys(es: Vec<(String, Json)>, key: Seq<char>)
    ensures
        field(Json::Object(es).tree(), key) is Some <==> exists|j: int|
            0 <= j < es@.len() && (#[trigger] es@[j]).0@ == key,
{
    let ps = entries(es@);
    if exists|j: int| 0 <= j < es@.len() && (#[trigger] es@[j]).0@ == key {
        let j = choose|j: int| 0 <= j < es@.len() && (#[trigger] es@[j]).0@ == key;
        assert(ps[j].0 == key);
        lemma_last_of(ps, key, j);
    }
    if pairs_map(ps).contains_key(key) {
        let i = lemma_pairs_map_is(ps, key);
        assert(es@[i].0@ == key);
    }
}

/// Two lists of pairs in which every key has the same last value have the same
/// map.
proof fn lemma_pairs_map_thinned(
    s: Seq<(Seq<char>, JsonV)>,
    t: Seq<(Seq<char>, JsonV)>,
    src: Seq<int>,
)
    requires
        src.len() == t.len(),
        forall|k: int|
            0 <= k < t.len() ==> 0 <= #[trigger] src[k] < s.len() && t[k] == s[src[k]] && forall|
                j: int,
            |
                src[k] < j < s.len() ==> (#[trigger] s[j]).0 != s[src[k]].0,
        forall|i: int|
            0 <= i < s.len() && (forall|j: int| i < j < s.len() ==> (#[trigger] s[j]).0 != s[i].0)
                ==> src.contains(i),
    ensures
        pairs_map(t) == pairs_map(s),
{
    assert forall|key: Seq<char>| #[trigger] pairs_map(s).contains_key(key) implies pairs_map(
        t,
    ).contains_key(key) by {
        let i = lemma_pairs_map_is(s, key);
        assert(src.contains(i));
        let k = choose|k: int| 0 <= k < src.len() && src[k] == i;
        assert(t[k].0 == key);
        if !pairs_map(t).contains_key(key) {
            lemma_last_of(t, key, k);
        }
    }
    assert forall|key: Seq<char>| #[trigger] pairs_map(t).contains_key(key) implies pairs_map(
        s,
    ).contains_key(key) && pairs_map(t)[key] == pairs_map(s)[key] by {
        let k = lemma_pairs_map_is(t, key);
        lemma_pairs_map_get(s, key, src[k]);
    }
    assert(pairs_map(t).dom() =~= pairs_map(s).dom()) by {
        assert forall|key: Seq<char>|
            pairs_map(t).dom().contains(key) == pairs_map(s).dom().contains(key) by {
            if pairs_map(t).contains_key(key) {
                assert(pairs_map(s).contains_key(key));
            }
            if pairs_map(s).contains_key(key) {
                assert(pairs_map(t).contains_key(key));
            }
        }
    }
    assert(pairs_map(t) =~= pairs_map(s));
}

/// A key that some pair names is in the map.
proof fn lemma_last_of(s: Seq<(Seq<char>, JsonV)>, key: Seq<char>, k: int)
    requires
        0 <= k < s.len(),
        s[k].0 == key,
    ensures
        pairs_map(s).contains_key(key),
    decreases s.len(),
{
    if s.last().0 != key {
        assert(s.drop_last()[k] == s[k]);
        lemma_last_of(s.drop_last(), key, k);
    }
}

impl Json {
    /// What the value is.
    pub open spec fn tree(self) -> JsonV
        decreases self,
    {
        match self {
            Json::Null => JsonV::Null,
            Json::Bool(b) => JsonV::Bool(b),
            Json::Number(n) => JsonV::Number(n),
            Json::Str(s) => JsonV::Str(s@),
            Json::Array(v) => JsonV::Array(trees(v@)),
            Json::Object(es) => JsonV::Object(pairs_map(entries(es@))),
        }
    }

    /// The integer `i`.
    pub fn from_int(i: i64) -> (r: Json)
        ensures
            r.tree() == JsonV::Number(int_number(i)),
            number_int(int_number(i)) == Some(i),
            number_shown(int_number(i)) == int_text(i as int),
    {
        Json::Number(number_from(i))
    }

    /// The unsigned integer `u`.
    pub fn from_unsigned(u: u64) -> (r: Json)
        ensures
            r.tree() == JsonV::Number(unsigned_number(u)),
            number_shown(unsigned_number(u)) == decimal(u as nat),
    {
        Json::Number(number_from_unsigned(u))
    }

    /// A text.
    pub fn string(s: &str) -> (r: Json)
        ensures
            r.tree() == JsonV::Str(s@),
    {
        Json::Str(s.to_owned())
    }

    /// The value under a key, where this is an object that has it.
    pub fn get(&self, key: &str) -> (r: Option<&Json>)
        ensures
            match r {
                Some(j) => field(self.tree(), key@) == Some(j.tree()),
                None => field(self.tree(), key@) is None,
            },
            r is Some ==> decreases_to!(*self => *r->0),
    {
        match self {
            Json::Object(es) => {
                let mut i: usize = es.len();
                let ghost ps = entries(es@);
                while i > 0
                    invariant
                        i <= es@.len(),
                        ps == entries(es@),
                        *self == Json::Object(*es),
                        self->Object_0 == *es,
                        self.tree() == JsonV::Object(pairs_map(ps)),
                        forall|k: int| i <= k < ps.len() ==> (#[trigger] ps[k]).0 != key@,
                    decreases i,
                {
                    i = i - 1;
                    assert(ps[i as int].0 == es@[i as int].0@);
                    if same(es[i].0.as_str(), key) {
                        proof {
                            lemma_pairs_map_get(ps, key@, i as int);
                            assert(decreases_to!(*self => es@));
                            assert(decreases_to!(es@ => es@[i as int]));
                        }
                        return Some(&es[i].1);
                    }
                }
                proof {
                    lemma_pairs_map_none(ps, key@);
                }
                None
            },
            _ => None,
        }
    }

    /// The text that this value is, if it is one.
    pub fn as_str(&self) -> (r: Option<&str>)
        ensures
            match r {
                Some(s) => str_of(self.tree()) == Some(s@),
                None => str_of(self.tree()) is None,
            },
    {
        match self {
            Json::Str(s) => Some(s.as_str()),
            _ => None,
        }
    }

    /// The text under a key.
    pub fn str_at(&self, key: &str) -> (r: Option<&str>)
        ensures
            match r {
                Some(s) => str_field(self.tree(), key@) == Some(s@),
                None => str_field(self.tree(), key@) is None,
            },
    {
        match self.get(key) {
            Some(j) => j.as_str(),
            None => None,
        }
    }

    /// The items under a key.
    pub fn array_at(&self, key: &str) -> (r: Option<&Vec<Json>>)
        ensures
            match r {
                Some(v) => array_field(self.tree(), key@) == Some(trees(v@)),
                None => array_field(self.tree(), key@) is None,
            },
            r is Some ==> decreases_to!(*self => r->0@),
    {
        match self.get(key) {
            Some(Json::Array(v)) => Some(v),
            _ => None,
        }
    }

    /// Whether the value under a key is `true`.
    pub fn is_true_at(&self, key: &str) -> (r: bool)
        ensures
            r == (field(self.tree(), key@) == Some(JsonV::Bool(true))),
    {
        match self.get(key) {
            Some(Json::Bool(b)) => *b,
            _ => false,
        }
    }

    /// The integer that this value is, where it is one that fits.
    pub fn as_i64(&self) -> (r: Option<i64>)
        ensures
            r == (match self.tree() {
                JsonV::Number(n) => number_int(n),
                _ => None,
            }),
    {
        match self {
            Json::Number(n) => number_as_i64(n),
            _ => None,
        }
    }

    /// A copy with the same content.
    pub fn copy(&self) -> (r: Json)
        ensures
            r.tree() == self.tree(),
        decreases self,
    {
        match self {
            Json::Null => Json::Null,
            Json::Bool(b) => Json::Bool(*b),
            Json::Number(n) => Json::Number(number_copy(n)),
            Json::Str(s) => Json::Str(s.clone()),
            Json::Array(v) => {
                let mut out: Vec<Json> = Vec::new();
                let mut i: usize = 0;
                while i < v.len()
                    invariant
                        i <= v@.len(),
                        *self == Json::Array(*v),
                        self->Array_0 == *v,
                        out@.len() == i,
                        forall|k: int| 0 <= k < i ==> (#[trigger] out@[k]).tree() == v@[k].tree(),
                    decreases v@.len() - i,
                {
                    assert(decreases_to!(*self => v@));
                    assert(decreases_to!(v@ => v@[i as int]));
                    out.push(v[i].copy());
                    i = i + 1;
                }
                assert(trees(out@) =~= trees(v@));
                Json::Array(out)
            },
            Json::Object(es) => {
                let mut out: Vec<(String, Json)> = Vec::new();
                let mut i: usize = 0;
                while i < es.len()
                    invariant
                        i <= es@.len(),
                        *self == Json::Object(*es),
                        self->Object_0 == *es,
                        out@.len() == i,
                        forall|k: int|
                            0 <= k < i ==> (#[trigger] out@[k]).1.tree() == es@[k].1.tree()
                                && out@[k].0 == es@[k].0,
                    decreases es@.len() - i,
                {
                    assert(decreases_to!(*self => es@));
                    assert(decreases_to!(es@ => es@[i as int]));
                    out.push((es[i].0.clone(), es[i].1.copy()));
                    i = i + 1;
                }
                assert(entries(out@) =~= entries(es@));
                Json::Object(out)
            },
        }
    }

    /// The same value out of its `serde_json` form.
    pub fn from_value(v: serde_json::Value) -> (r: Json)
        ensures
            r.tree() == value_tree(v),
        decreases value_tree(v),
    {
        let ghost t = value_tree(v);
        match value_node(v) {
            Node::Null => Json::Null,
            Node::Bool(b) => Json::Bool(b),
            Node::Number(n) => Json::Number(n),
            Node::Str(s) => Json::Str(s),
            Node::Array(a) => {
                let ghost all = a@;
                let ghost items = Seq::new(all.len(), |i: int| value_tree(all[i]));
                let mut out: Vec<Json> = Vec::new();
                for x in it: a
                    invariant
                        it.seq() == all,
                        items == Seq::new(all.len(), |i: int| value_tree(all[i])),
                        t == value_tree(v),
                        t == JsonV::Array(items),
                        t->Array_0 == items,
                        trees(out@) == items.take(it.index() as int),
                {
                    assert(items[it.index() as int] == value_tree(x));
                    assert(decreases_to!(t => items));
                    assert(decreases_to!(items => items[it.index() as int]));
                    let j = Json::from_value(x);
                    let ghost before = out@;
                    out.push(j);
                    assert(trees(out@) =~= trees(before).push(j.tree()));
                    assert(items.take(it.index() as int + 1) =~= items.take(
                        it.index() as int,
                    ).push(items[it.index() as int]));
                }
                assert(trees(out@) =~= items);
                Json::Array(out)
            },
            Node::Object(es) => {
                let ghost all = es@;
                let ghost ps = Seq::new(all.len(), |i: int| (all[i].0@, value_tree(all[i].1)));
                let mut out: Vec<(String, Json)> = Vec::new();
                for e in it: es
                    invariant
                        it.seq() == all,
                        ps == Seq::new(all.len(), |i: int| (all[i].0@, value_tree(all[i].1))),
                        t == value_tree(v),
                        t == JsonV::Object(pairs_map(ps)),
                        t->Object_0 == pairs_map(ps),
                        distinct_keys(all),
                        entries(out@) == ps.take(it.index() as int),
                {
                    let ghost n = it.index() as int;
                    assert(ps[n] == (e.0@, value_tree(e.1)));
                    proof {
                        lemma_pairs_map_finite(ps);
                        assert forall|k: int| n < k < ps.len() implies (#[trigger] ps[k]).0
                            != e.0@ by {
                            assert(all[k].0@ != all[n].0@);
                        }
                        lemma_pairs_map_get(ps, e.0@, n);
                        assert(decreases_to!(t => pairs_map(ps)));
                        assert(decreases_to!(pairs_map(ps) => pairs_map(ps)[e.0@]));
                    }
                    let (key, val) = e;
                    let j = Json::from_value(val);
                    let ghost before = out@;
                    out.push((key, j));
                    assert(entries(out@) =~= entries(before).push((key@, j.tree())));
                    assert(ps.take(n + 1) =~= ps.take(n).push(ps[n]));
                }
                assert(entries(out@) =~= ps);
                Json::Object(out)
            },
        }
    }

    /// The same value in its `serde_json` form.
    pub fn to_value(&self) -> (r: serde_json::Value)
        ensures
            value_tree(r) == self.tree(),
        decreases self,
    {
        match self {
            Json::Null => node_value(Node::Null),
            Json::Bool(b) => node_value(Node::Bool(*b)),
            Json::Number(n) => node_value(Node::Number(number_copy(n))),
            Json::Str(s) => node_value(Node::Str(s.clone())),
            Json::Array(v) => {
                let mut out: Vec<serde_json::Value> = Vec::new();
                let mut i: usize = 0;
                while i < v.len()
                    invariant
                        i <= v@.len(),
                        *self == Json::Array(*v),
                        self->Array_0 == *v,
                        out@.len() == i,
                        forall|k: int|
                            0 <= k < i ==> value_tree(#[trigger] out@[k]) == v@[k].tree(),
                    decreases v@.len() - i,
                {
                    assert(decreases_to!(*self => v@));
                    assert(decreases_to!(v@ => v@[i as int]));
                    out.push(v[i].to_value());
                    i = i + 1;
                }
                assert(Seq::new(out@.len(), |i: int| value_tree(out@[i])) =~= trees(v@));
                node_value(Node::Array(out))
            },
            Json::Object(es) => {
                let mut out: Vec<(String, serde_json::Value)> = Vec::new();
                let mut i: usize = 0;
                let ghost ps = entries(es@);
                let ghost mut src: Seq<int> = Seq::empty();
                while i < es.len()
                    invariant
                        i <= es@.len(),
                        *self == Json::Object(*es),
                        self->Object_0 == *es,
                        ps == entries(es@),
                        out@.len() == src.len(),
                        forall|k: int|
                            0 <= k < src.len() ==> 0 <= #[trigger] src[k] < i && out@[k].0@
                                == ps[src[k]].0 && value_tree(out@[k].1) == ps[src[k]].1 && forall|
                                j: int,
                            |
                                src[k] < j < ps.len() ==> (#[trigger] ps[j]).0 != ps[src[k]].0,
                        forall|k: int, l: int| 0 <= k < l < src.len() ==> src[k] < src[l],
                        forall|a: int|
                            0 <= a < i && (forall|j: int|
                                a < j < ps.len() ==> (#[trigger] ps[j]).0 != ps[a].0)
                                ==> src.contains(a),
                    decreases es@.len() - i,
                {
                    assert(decreases_to!(*self => es@));
                    assert(decreases_to!(es@ => es@[i as int]));
                    let mut later = false;
                    let mut j: usize = i + 1;
                    while j < es.len()
                        invariant
                            i < j <= es@.len(),
                            ps == entries(es@),
                            later == exists|a: int| i < a < j && (#[trigger] ps[a]).0 == ps[i as int].0,
                        decreases es@.len() - j,
                    {
                        assert(ps[j as int].0 == es@[j as int].0@);
                        if same(es[j].0.as_str(), es[i].0.as_str()) {
                            later = true;
                        }
                        j = j + 1;
                    }
                    let ghost src0 = src;
                    if !later {
                        let val = es[i].1.to_value();
                        out.push((es[i].0.clone(), val));
                        proof {
                            src = src.push(i as int);
                            assert(src[src0.len() as int] == i);
                        }
                    }
                    assert forall|a: int|
                        0 <= a < i + 1 && (forall|j: int|
                            a < j < ps.len() ==> (#[trigger] ps[j]).0 != ps[a].0) implies src.contains(
                        a,
                    ) by {
                        if a < i {
                            assert(src0.contains(a));
                            let k = choose|k: int| 0 <= k < src0.len() && src0[k] == a;
                            assert(src[k] == a);
                        }
                    }
                    i = i + 1;
                }
                let ghost ts = Seq::new(out@.len(), |i: int| (out@[i].0@, value_tree(out@[i].1)));
                proof {
                    assert forall|k: int| 0 <= k < ts.len() implies 0 <= #[trigger] src[k]
                        < ps.len() && ts[k] == ps[src[k]] && forall|j: int|
                        src[k] < j < ps.len() ==> (#[trigger] ps[j]).0 != ps[src[k]].0 by {}
                    lemma_pairs_map_thinned(ps, ts, src);
                    assert forall|a: int, b: int| 0 <= a < b < out@.len() implies (
                    #[trigger] out@[a]).0@ != (#[trigger] out@[b]).0@ by {
                        assert(src[a] < src[b]);
                        assert(ps[src[b]].0 != ps[src[a]].0);
                    }
                }
                node_value(Node::Object(out))
            },
        }
    }

    /// The value that a JSON text denotes; `None` where the text is not JSON.
    pub fn parse(s: &str) -> (r: Option<Json>)
        ensures
            match r {
                Some(j) => json_parsed(s@) == Some(j.tree()),
                None => json_parsed(s@) is None,
            },
    {
        match parse_value(s) {
            Ok(v) => Some(Json::from_value(v)),
            Err(_) => None,
        }
    }

    /// Whether two values count as equal.
    pub fn same_as(&self, other: &Json) -> (r: bool)
        ensures
            r == values_equal(self.tree(), other.tree()),
            self.tree() == other.tree() ==> r,
    {
        same_values(&self.to_value(), &other.to_value())
    }

    /// The compact JSON text.
    pub fn text(&self) -> (r: String)
        ensures
            r@ == json_text(self.tree()),
    {
        value_text(&self.to_value())
    }

    /// The indented JSON text.
    pub fn pretty(&self) -> (r: String)
        ensures
            r@ == json_pretty(self.tree()),
    {
        value_pretty(&self.to_value())
    }
}

/// A JSON object under construction.
pub struct JsonObject {
    pub es: Vec<(String, Json)>,
}

impl JsonObject {
    /// The map that the object is.
    pub open spec fn map(self) -> Map<Seq<char>, JsonV> {
        pairs_map(entries(self.es@))
    }

    /// The object without entries.
    pub fn new() -> (r: JsonObject)
        ensures
            r.map() == Map::<Seq<char>, JsonV>::empty(),
    {
        let r = JsonObject { es: Vec::new() };
        assert(entries(r.es@).len() == 0);
        r
    }

    /// Sets a key.
    pub fn insert(&mut self, key: &str, val: Json)
        ensures
            final(self).map() == old(self).map().insert(key@, val.tree()),
    {
        let ghost before = entries(self.es@);
        self.es.push((key.to_owned(), val));
        assert(entries(self.es@).drop_last() =~= before);
    }

    /// Sets a key to a text.
    pub fn insert_str(&mut self, key: &str, val: &str)
        ensures
            final(self).map() == old(self).map().insert(key@, JsonV::Str(val@)),
    {
        self.insert(key, Json::string(val));
    }

    /// Sets a key to a truth value.
    pub fn insert_bool(&mut self, key: &str, val: bool)
        ensures
            final(self).map() == old(self).map().insert(key@, JsonV::Bool(val)),
    {
        self.insert(key, Json::Bool(val));
    }

    /// Sets a key to an integer.
    pub fn insert_int(&mut self, key: &str, val: i64)
        ensures
            final(self).map() == old(self).map().insert(key@, JsonV::Number(int_number(val))),
    {
        self.insert(key, Json::from_int(val));
    }

    /// Sets a key to an unsigned integer.
    pub fn insert_unsigned(&mut self, key: &str, val: u64)
        ensures
            final(self).map() == old(self).map().insert(key@, JsonV::Number(unsigned_number(val))),
    {
        self.insert(key, Json::from_unsigned(val));
    }

    /// Sets a key to a text, or to null.
    pub fn insert_opt(&mut self, key: &str, val: &Option<String>)
        ensures
            final(self).map() == old(self).map().insert(key@, opt_json(opt_text(*val))),
    {
        match val {
            Some(s) => self.insert_str(key, s.as_str()),
            None => self.insert(key, Json::Null),
        }
    }

    /// Sets a key to a list of texts.
    pub fn insert_texts(&mut self, key: &str, val: &Vec<String>)
        ensures
            final(self).map() == old(self).map().insert(key@, texts_json(texts(val@))),
    {
        self.insert(key, Json::from_texts(val));
    }

    /// The finished object.
    pub fn done(self) -> (r: Json)
        ensures
            r.tree() == JsonV::Object(self.map()),
    {
        Json::Object(self.es)
    }

    /// The value under a key.
    pub fn get(&self, key: &str) -> (r: Option<&Json>)
        ensures
            match r {
                Some(j) => self.map().contains_key(key@) && self.map()[key@] == j.tree(),
                None => !self.map().contains_key(key@),
            },
    {
        let mut i: usize = self.es.len();
        let ghost ps = entries(self.es@);
        while i > 0
            invariant
                i <= self.es@.len(),
                ps == entries(self.es@),
                forall|k: int| i <= k < ps.len() ==> (#[trigger] ps[k]).0 != key@,
            decreases i,
        {
            i = i - 1;
            assert(ps[i as int].0 == self.es@[i as int].0@);
            if same(self.es[i].0.as_str(), key) {
                proof {
                    lemma_pairs_map_get(ps, key@, i as int);
                }
                return Some(&self.es[i].1);
            }
        }
        proof {
            lemma_pairs_map_none(ps, key@);
        }
        None
    }

    /// Whether a key is set.
    pub fn has(&self, key: &str) -> (r: bool)
        ensures
            r == self.map().contains_key(key@),
    {
        self.get(key).is_some()
    }

    /// The object without a key.
    pub fn without(&self, key: &str) -> (r: JsonObject)
        ensures
            r.map() == self.map().remove(key@),
    {
        let mut out = JsonObject::new();
        let mut i: usize = 0;
        let ghost ps = entries(self.es@);
        assert(pairs_map(ps.take(0)).remove(key@) =~= Map::empty());
        while i < self.es.len()
            invariant
                i <= self.es@.len(),
                ps == entries(self.es@),
                out.map() == pairs_map(ps.take(i as int)).remove(key@),
            decreases self.es@.len() - i,
        {
            assert(ps.take(i as int + 1).drop_last() =~= ps.take(i as int));
            assert(ps.take(i as int + 1).last() == ps[i as int]);
            let ghost m = pairs_map(ps.take(i as int));
            if !same(self.es[i].0.as_str(), key) {
                out.insert(self.es[i].0.as_str(), self.es[i].1.copy());
                assert(out.map() =~= m.insert(ps[i as int].0, ps[i as int].1).remove(key@));
            } else {
                assert(m.insert(key@, ps[i as int].1).remove(key@) =~= m.remove(key@));
            }
            i = i + 1;
        }
        assert(ps.take(i as int) =~= ps);
        out
    }

    /// A copy with the same content.
    pub fn copy(&self) -> (r: JsonObject)
        ensures
            r.map() == self.map(),
    {
        let mut out = JsonObject::new();
        let mut i: usize = 0;
        let ghost ps = entries(self.es@);
        assert(ps.take(0).len() == 0);
        while i < self.es.len()
            invariant
                i <= self.es@.len(),
                ps == entries(self.es@),
                out.map() == pairs_map(ps.take(i as int)),
            decreases self.es@.len() - i,
        {
            assert(ps.take(i as int + 1).drop_last() =~= ps.take(i as int));
            assert(ps.take(i as int + 1).last() == ps[i as int]);
            out.insert(self.es[i].0.as_str(), self.es[i].1.copy());
            i = i + 1;
        }
        assert(ps.take(i as int) =~= ps);
        out
    }
}

/// An optional text as JSON: the text, or null.
pub open spec fn opt_json(o: Option<Seq<char>>) -> JsonV {
    match o {
        Some(s) => JsonV::Str(s),
        None => JsonV::Null,
    }
}

/// A list of texts as JSON.
pub open spec fn texts_json(v: Seq<Seq<char>>) -> JsonV {
    JsonV::Array(v.map_values(|s: Seq<char>| JsonV::Str(s)))
}

impl Json {
    /// A list of texts.
    pub fn from_texts(v: &Vec<String>) -> (r: Json)
        ensures
            r.tree() == texts_json(texts(v@)),
    {
        let mut out: Vec<Json> = Vec::new();
        let mut i: usize = 0;
        while i < v.len()
            invariant
                i <= v@.len(),
                out@.len() == i,
                forall|k: int| 0 <= k < i ==> (#[trigger] out@[k]).tree() == JsonV::Str(v@[k]@),
            decreases v@.len() - i,
        {
            out.push(Json::string(v[i].as_str()));
            i = i + 1;
        }
        assert(trees(out@) =~= texts(v@).map_values(|s: Seq<char>| JsonV::Str(s)));
        Json::Array(out)
    }

    /// The text a scalar has on a command line; `None` for null, arrays and
    /// objects.
    pub fn scalar_text(&self) -> (r: Option<String>)
        ensures
            opt_text(r) == scalar_shown(self.tree()),
    {
        match self {
            Json::Str(s) => Some(s.clone()),
            Json::Number(n) => Some(number_text(n)),
            Json::Bool(b) => Some(
                if *b {
                    "true".to_string()
                } else {
                    "false".to_string()
                },
            ),
            _ => None,
        }
    }
}

/// A value as a floating-point number with two decimal places; zero for what is
/// no number.
pub open spec fn fixed_shown(t: Option<JsonV>) -> Seq<char> {
    match t {
        Some(JsonV::Number(n)) => number_fixed(n),
        _ => "0.00"@,
    }
}

impl Json {
    /// The number under a key with two decimal places.
    pub fn fixed_at(&self, key: &str) -> (r: String)
        ensures
            r@ == fixed_shown(field(self.tree(), key@)),
    {
        match self.get(key) {
            Some(Json::Number(n)) => number_two_places(n),
            _ => "0.00".to_string(),
        }
    }
}

/// The text of a scalar: a string as it is, a number or a truth value as JSON
/// writes it.
pub open spec fn scalar_shown(t: JsonV) -> Option<Seq<char>> {
    match t {
        JsonV::Str(s) => Some(s),
        JsonV::Number(n) => Some(number_shown(n)),
        JsonV::Bool(b) => Some(
            if b {
                "true"@
            } else {
                "false"@
            },
        ),
        _ => None,
    }
}

} // verus!
