//! JSON documents: objects keep the order in which their entries were written.

use vstd::prelude::*;
use vstd::string::*;

use crate::maps::{distinct_keys, inserted, inserted_all, key_index, lemma_key_index, lookup};
use crate::numbers::decimal_text;
use crate::text::opt_text;
use crate::texts::Texts;

verus! {

/// `serde_json::Number`: a JSON number.
#[verifier::external_type_specification]
#[verifier::external_body]
pub struct ExNumber(serde_json::Number);

/// `serde_json::Value`: a JSON document as the parser hands it out.
#[verifier::external_type_specification]
#[verifier::external_body]
pub struct ExValue(serde_json::Value);

/// What a JSON number is: an integer of at least zero, a negative integer, or a floating-point
/// number, given by the shortest decimal text that reads back as it.
#[verifier::ext_equal]
pub enum NumberView {
    PosInt(u64),
    NegInt(i64),
    Float(Seq<char>),
}

/// The mathematical model of a JSON document.
#[verifier::ext_equal]
pub enum JsonView {
    Null,
    Bool(bool),
    Number(NumberView),
    String(Seq<char>),
    Array(Seq<JsonView>),
    Object(Seq<(Seq<char>, JsonView)>),
}

/// What a `serde_json::Number` holds.
pub uninterp spec fn number_model(n: serde_json::Number) -> NumberView;

/// What a `serde_json::Value` holds.
pub uninterp spec fn value_model(v: serde_json::Value) -> JsonView;

/// The document that `serde_json::from_str` reads from a text, if it is one.
pub uninterp spec fn parsed_text(s: Seq<char>) -> Option<JsonView>;

/// The compact text that `serde_json` writes for a document.
pub uninterp spec fn compact_text(j: JsonView) -> Seq<char>;

#[derive(Debug, PartialEq)]
pub enum Json {
    Null,
    Bool(bool),
    Number(serde_json::Number),
    String(String),
    Array(Vec<Json>),
    Object(Vec<(String, Json)>),
}

/// One level of a `serde_json::Value`.
pub enum Layer {
    Null,
    Bool(bool),
    Number(serde_json::Number),
    String(String),
    Array(Vec<serde_json::Value>),
    Object(Vec<(String, serde_json::Value)>),
}

pub open spec fn value_elements(v: Seq<serde_json::Value>) -> Seq<JsonView> {
    Seq::new(v.len(), |i: int| value_model(v[i]))
}

pub open spec fn value_members(v: Seq<(String, serde_json::Value)>) -> Seq<(Seq<char>, JsonView)> {
    Seq::new(v.len(), |i: int| (v[i].0@, value_model(v[i].1)))
}

pub open spec fn layer_model(l: Layer) -> JsonView {
    match l {
        Layer::Null => JsonView::Null,
        Layer::Bool(b) => JsonView::Bool(b),
        Layer::Number(n) => JsonView::Number(number_model(n)),
        Layer::String(s) => JsonView::String(s@),
        Layer::Array(v) => JsonView::Array(value_elements(v@)),
        Layer::Object(v) => JsonView::Object(value_members(v@)),
    }
}

/// A document in which the entries of the outermost object are bound one after the other: a later
/// entry replaces the value of an earlier one with the same key.
pub open spec fn merged_members(j: JsonView) -> JsonView {
    match j {
        JsonView::Object(m) => JsonView::Object(inserted_all(Seq::empty(), m)),
        _ => j,
    }
}

/// The decimal text of a number.
pub open spec fn number_display(n: NumberView) -> Seq<char> {
    match n {
        NumberView::PosInt(u) => decimal_text(u as nat),
        NumberView::NegInt(i) => "-"@ + decimal_text((-i) as nat),
        NumberView::Float(t) => t,
    }
}

/// Whether two numbers are equal. An integer never equals a floating-point number, and the two
/// zeros of the latter are the only different texts that stand for one value.
pub open spec fn same_number(a: NumberView, b: NumberView) -> bool {
    match (a, b) {
        (NumberView::Float(s), NumberView::Float(t)) => s == t || ((s == "0.0"@ || s == "-0.0"@) && (
        t == "0.0"@ || t == "-0.0"@)),
        _ => a == b,
    }
}

/// `serde_json::Number::as_u64`: the number where it is an integer of at least zero.
pub assume_specification[ serde_json::Number::as_u64 ](n: &serde_json::Number) -> (res: Option<u64>)
    ensures
        res == (match number_model(*n) {
            NumberView::PosInt(u) => Some(u),
            _ => None,
        }),
;

/// The clone of a `serde_json::Number` holds the same number.
#[verifier::external_body]
fn clone_number(n: &serde_json::Number) -> (res: serde_json::Number)
    ensures
        number_model(res) == number_model(*n),
{
    n.clone()
}

/// The `Display` text of a `serde_json::Number`: integers in decimal with a leading minus sign
/// where they are negative, floating-point numbers by their shortest decimal text.
#[verifier::external_body]
pub(crate) fn number_text(n: &serde_json::Number) -> (res: String)
    ensures
        res@ == number_display(number_model(*n)),
{
    n.to_string()
}

/// The `==` of `serde_json::Number`: numbers of one kind are compared by value, numbers of
/// different kinds are never equal.
#[verifier::external_body]
fn numbers_equal(a: &serde_json::Number, b: &serde_json::Number) -> (res: bool)
    ensures
        res == same_number(number_model(*a), number_model(*b)),
{
    a == b
}

/// Opens a `serde_json::Value`: the variant with its contents, the entries of an object in the
/// order in which its map keeps them. No key of a map occurs twice.
#[verifier::external_body]
fn open_value(v: serde_json::Value) -> (res: Layer)
    ensures
        layer_model(res) == value_model(v),
        res matches Layer::Object(m) ==> distinct_keys(value_members(m@)),
{
    match v {
        serde_json::Value::Null => Layer::Null,
        serde_json::Value::Bool(b) => Layer::Bool(b),
        serde_json::Value::Number(n) => Layer::Number(n),
        serde_json::Value::String(s) => Layer::String(s),
        serde_json::Value::Array(a) => Layer::Array(a),
        serde_json::Value::Object(m) => Layer::Object(m.into_iter().collect()),
    }
}

/// Builds a `serde_json::Value` from its variant and contents. The entries of an object are
/// inserted into the map in order; a key that is already there keeps its place and takes the new
/// value.
#[verifier::external_body]
fn close_value(l: Layer) -> (res: serde_json::Value)
    ensures
        value_model(res) == merged_members(layer_model(l)),
{
    match l {
        Layer::Null => serde_json::Value::Null,
        Layer::Bool(b) => serde_json::Value::Bool(b),
        Layer::Number(n) => serde_json::Value::Number(n),
        Layer::String(s) => serde_json::Value::String(s),
        Layer::Array(a) => serde_json::Value::Array(a),
        Layer::Object(m) => serde_json::Value::Object(m.into_iter().collect()),
    }
}

/// `serde_json::from_str` into a `serde_json::Value`; `None` where it reports an error.
#[verifier::external_body]
fn read_value(s: &str) -> (res: Option<serde_json::Value>)
    ensures
        (match res {
            Some(v) => Some(value_model(v)),
            None => None::<JsonView>,
        }) == parsed_text(s@),
{
    serde_json::from_str(s).ok()
}

/// The `Display` text of a `serde_json::Value`: the compact JSON text of the document.
#[verifier::external_body]
fn write_value(v: &serde_json::Value) -> (res: String)
    ensures
        res@ == compact_text(value_model(*v)),
{
    v.to_string()
}

/// The model of a document: its strings by their characters, its lists by their items.
pub open spec fn model(j: Json) -> JsonView
    decreases j,
{
    match j {
        Json::Null => JsonView::Null,
        Json::Bool(b) => JsonView::Bool(b),
        Json::Number(n) => JsonView::Number(number_model(n)),
        Json::String(s) => JsonView::String(s@),
        Json::Array(v) => JsonView::Array(
            Seq::new(
                v@.len(),
                |i: int|
                    if 0 <= i < v@.len() {
                        model(v@[i])
                    } else {
                        JsonView::Null
                    },
            ),
        ),
        Json::Object(v) => JsonView::Object(
            Seq::new(
                v@.len(),
                |i: int|
                    if 0 <= i < v@.len() {
                        (v@[i].0@, model(v@[i].1))
                    } else {
                        (Seq::empty(), JsonView::Null)
                    },
            ),
        ),
    }
}

impl View for Json {
    type V = JsonView;

    open spec fn view(&self) -> JsonView {
        model(*self)
    }
}

pub open spec fn elements(v: Seq<Json>) -> Seq<JsonView> {
    Seq::new(v.len(), |i: int| v[i]@)
}

pub open spec fn members(v: Seq<(String, Json)>) -> Seq<(Seq<char>, JsonView)> {
    Seq::new(v.len(), |i: int| (v[i].0@, v[i].1@))
}

pub broadcast proof fn lemma_array_view(v: Vec<Json>)
    ensures
        #[trigger] model(Json::Array(v)) == JsonView::Array(elements(v@)),
{
    assert(model(Json::Array(v))->Array_0 =~= elements(v@));
}

pub broadcast proof fn lemma_object_view(v: Vec<(String, Json)>)
    ensures
        #[trigger] model(Json::Object(v)) == JsonView::Object(members(v@)),
{
    assert(model(Json::Object(v))->Object_0 =~= members(v@));
}

pub broadcast group group_json {
    lemma_array_view,
    lemma_object_view,
}

pub open spec fn opt_json(o: Option<&Json>) -> Option<JsonView> {
    match o {
        Some(j) => Some(j@),
        None => None,
    }
}

pub open spec fn opt_model(o: Option<Json>) -> Option<JsonView> {
    match o {
        Some(j) => Some(j@),
        None => None,
    }
}

/// The value of the member `key` of an object.
pub open spec fn field(j: JsonView, key: Seq<char>) -> Option<JsonView> {
    match j {
        JsonView::Object(m) => lookup(m, key),
        _ => None,
    }
}

/// In every object of the document no key occurs twice.
pub open spec fn well_formed(j: JsonView) -> bool
    decreases j,
{
    match j {
        JsonView::Array(a) => forall|i: int| 0 <= i < a.len() ==> well_formed(#[trigger] a[i]),
        JsonView::Object(m) => distinct_keys(m) && forall|i: int|
            0 <= i < m.len() ==> well_formed((#[trigger] m[i]).1),
        _ => true,
    }
}

/// The document with every object's entries bound one after the other.
pub open spec fn normalized(j: JsonView) -> JsonView
    decreases j,
{
    match j {
        JsonView::Array(a) => JsonView::Array(
            Seq::new(
                a.len(),
                |i: int|
                    if 0 <= i < a.len() {
                        normalized(a[i])
                    } else {
                        JsonView::Null
                    },
            ),
        ),
        JsonView::Object(m) => JsonView::Object(inserted_all(Seq::empty(), normalized_members(m))),
        _ => j,
    }
}

pub open spec fn normalized_members(m: Seq<(Seq<char>, JsonView)>) -> Seq<(Seq<char>, JsonView)>
    decreases m,
{
    Seq::new(
        m.len(),
        |i: int|
            if 0 <= i < m.len() {
                (m[i].0, normalized(m[i].1))
            } else {
                (Seq::empty(), JsonView::Null)
            },
    )
}

proof fn lemma_inserted_all_distinct<V>(m: Seq<(Seq<char>, V)>, n: int)
    requires
        distinct_keys(m),
        0 <= n <= m.len(),
    ensures
        inserted_all(Seq::empty(), m.take(n)) == m.take(n),
    decreases n,
{
    if n > 0 {
        lemma_inserted_all_distinct(m, n - 1);
        assert(m.take(n).drop_last() =~= m.take(n - 1));
        lemma_key_index(m.take(n - 1), m[n - 1].0, 0);
        assert(m.take(n - 1).push(m[n - 1]) =~= m.take(n));
    } else {
        assert(m.take(0) =~= Seq::empty());
    }
}

/// A document without repeated keys is its own normal form.
pub proof fn lemma_normalized(j: JsonView)
    requires
        well_formed(j),
    ensures
        normalized(j) == j,
    decreases j,
{
    match j {
        JsonView::Array(a) => {
            assert forall|i: int| 0 <= i < a.len() implies normalized(a[i]) == a[i] by {
                lemma_normalized(a[i]);
            }
            assert(normalized(j)->Array_0 =~= a);
            assert(normalized(j) is Array);
        },
        JsonView::Object(m) => {
            assert forall|i: int| 0 <= i < m.len() implies normalized(m[i].1) == m[i].1 by {
                assert(well_formed(m[i].1));
                lemma_normalized(m[i].1);
            }
            let n = normalized_members(m);
            assert(n =~= m);
            lemma_inserted_all_distinct(m, m.len() as int);
            assert(m.take(m.len() as int) =~= m);
        },
        _ => {},
    }
}

/// The compact JSON text of a document.
pub open spec fn json_text(j: JsonView) -> Seq<char> {
    compact_text(normalized(j))
}

/// The text of an option value: a string as it is, anything else as JSON.
pub open spec fn plain_text(j: JsonView) -> Seq<char> {
    match j {
        JsonView::String(s) => s,
        _ => json_text(j),
    }
}

/// The text of a scalar: strings as they are, booleans by name and numbers in decimal.
pub open spec fn scalar_text(j: JsonView) -> Option<Seq<char>> {
    match j {
        JsonView::String(s) => Some(s),
        JsonView::Bool(b) => Some(
            if b {
                "true"@
            } else {
                "false"@
            },
        ),
        JsonView::Number(n) => Some(number_display(n)),
        _ => None,
    }
}

/// Whether two documents are equal; the order of an object's entries does not matter.
pub open spec fn same_json(a: JsonView, b: JsonView) -> bool
    decreases a,
{
    match (a, b) {
        (JsonView::Number(m), JsonView::Number(n)) => same_number(m, n),
        (JsonView::Array(s), JsonView::Array(t)) => s.len() == t.len() && forall|i: int|
            0 <= i < s.len() ==> same_json(#[trigger] s[i], t[i]),
        (JsonView::Object(s), JsonView::Object(t)) => s.len() == t.len() && forall|i: int|
            0 <= i < s.len() ==> (lookup(t, (#[trigger] s[i]).0) matches Some(v) && same_json(
                s[i].1,
                v,
            )),
        _ => a == b,
    }
}

/// The position of the first entry for `key`, or the number of entries.
pub fn find_member(v: &Vec<(String, Json)>, key: &str) -> (at: usize)
    ensures
        at == key_index(members(v@), key@, 0),
        at <= v@.len(),
{
    let wanted = key.to_owned();
    let mut i: usize = 0;
    while i < v.len()
        invariant
            i <= v@.len(),
            wanted@ == key@,
            key_index(members(v@), key@, 0) == key_index(members(v@), key@, i as int),
        decreases v@.len() - i,
    {
        if v[i].0 == wanted {
            assert(members(v@)[i as int].0 == key@);
            return i;
        }
        assert(members(v@)[i as int].0 != key@);
        i = i + 1;
    }
    i
}

/// Binds `key` to `value`: an existing entry keeps its place, a new one comes last.
pub fn put_member(v: &mut Vec<(String, Json)>, key: &str, value: Json)
    ensures
        members(final(v)@) == inserted(members(old(v)@), key@, value@),
{
    let at: usize = find_member(v, key);
    let ghost before = v@;
    let entry = (key.to_owned(), value);
    if at < v.len() {
        v.set(at, entry);
    } else {
        v.push(entry);
    }
    assert(members(v@) =~= inserted(members(before), key@, entry.1@));
}

impl Json {
    pub fn copy(&self) -> (res: Json)
        ensures
            res@ == self@,
        decreases self,
    {
        broadcast use group_json;

        match self {
            Json::Null => Json::Null,
            Json::Bool(b) => Json::Bool(*b),
            Json::Number(n) => Json::Number(clone_number(n)),
            Json::String(s) => Json::String(s.clone()),
            Json::Array(v) => {
                let mut out: Vec<Json> = Vec::new();
                let mut i: usize = 0;
                while i < v.len()
                    invariant
                        *self == Json::Array(*v),
                        i <= v@.len(),
                        elements(out@) == elements(v@).take(i as int),
                    decreases v@.len() - i,
                {
                    assert(decreases_to!(*self => self->Array_0));
                    assert(decreases_to!(*v => v@));
                    assert(decreases_to!(v@ => v@[i as int]));
                    assert(decreases_to!(*self => v@[i as int]));
                    let item = v[i].copy();
                    let ghost before = out@;
                    out.push(item);
                    assert(elements(out@) =~= elements(before).push(item@));
                    assert(elements(out@) =~= elements(v@).take(i + 1));
                    i = i + 1;
                }
                assert(elements(v@).take(i as int) =~= elements(v@));
                Json::Array(out)
            },
            Json::Object(v) => {
                let mut out: Vec<(String, Json)> = Vec::new();
                let mut i: usize = 0;
                while i < v.len()
                    invariant
                        *self == Json::Object(*v),
                        i <= v@.len(),
                        members(out@) == members(v@).take(i as int),
                    decreases v@.len() - i,
                {
                    assert(decreases_to!(*self => self->Object_0));
                    assert(decreases_to!(*v => v@));
                    assert(decreases_to!(v@ => v@[i as int]));
                    assert(decreases_to!(v@[i as int] => v@[i as int].1));
                    assert(decreases_to!(*self => v@[i as int].1));
                    let item = v[i].1.copy();
                    let ghost before = out@;
                    let key = v[i].0.clone();
                    out.push((key, item));
                    assert(members(out@) =~= members(before).push((key@, item@)));
                    assert(members(out@) =~= members(v@).take(i + 1));
                    i = i + 1;
                }
                assert(members(v@).take(i as int) =~= members(v@));
                Json::Object(out)
            },
        }
    }

    /// The value of the member `key` of an object.
    pub fn get(&self, key: &str) -> (res: Option<&Json>)
        ensures
            opt_json(res) == field(self@, key@),
    {
        broadcast use group_json;

        match self {
            Json::Object(v) => {
                let at: usize = find_member(v, key);
                if at < v.len() {
                    assert(members(v@)[at as int].1 == v@[at as int].1@);
                    Some(&v[at].1)
                } else {
                    None
                }
            },
            _ => None,
        }
    }

    /// The document that a `serde_json::Value` holds.
    pub fn from_value(value: serde_json::Value) -> (res: Json)
        ensures
            res@ == value_model(value),
            well_formed(res@),
        decreases value_model(value),
    {
        broadcast use group_json;

        let ghost whole = value_model(value);
        match open_value(value) {
            Layer::Null => Json::Null,
            Layer::Bool(b) => Json::Bool(b),
            Layer::Number(n) => Json::Number(n),
            Layer::String(s) => Json::String(s),
            Layer::Array(v) => {
                let ghost items = v@;
                let mut out: Vec<Json> = Vec::new();
                for item in it: v
                    invariant
                        it.seq() == items,
                        whole == value_model(value),
                        whole == JsonView::Array(value_elements(items)),
                        elements(out@) == value_elements(items).take(it.index() as int),
                        forall|k: int| 0 <= k < out@.len() ==> well_formed(#[trigger] out@[k]@),
                {
                    let ghost i = it.index() as int;
                    assert(decreases_to!(whole => whole->Array_0));
                    assert(decreases_to!(whole->Array_0 => whole->Array_0[i]));
                    assert(whole->Array_0[i] == value_model(item));
                    let ghost before = out@;
                    let entry = Json::from_value(item);
                    out.push(entry);
                    assert(elements(out@) =~= elements(before).push(entry@));
                    assert(elements(out@) =~= value_elements(items).take(i + 1));
                }
                assert(value_elements(items).take(items.len() as int) =~= value_elements(items));
                assert forall|k: int| 0 <= k < elements(out@).len() implies well_formed(
                    #[trigger] elements(out@)[k],
                ) by {
                    assert(well_formed(out@[k]@));
                }
                Json::Array(out)
            },
            Layer::Object(v) => {
                let ghost items = v@;
                let mut out: Vec<(String, Json)> = Vec::new();
                for item in it: v
                    invariant
                        it.seq() == items,
                        whole == value_model(value),
                        whole == JsonView::Object(value_members(items)),
                        members(out@) == value_members(items).take(it.index() as int),
                        forall|k: int| 0 <= k < out@.len() ==> well_formed((#[trigger] out@[k]).1@),
                {
                    let ghost i = it.index() as int;
                    assert(decreases_to!(whole => whole->Object_0));
                    assert(decreases_to!(whole->Object_0 => whole->Object_0[i]));
                    assert(decreases_to!(whole->Object_0[i] => whole->Object_0[i].1));
                    assert(whole->Object_0[i].1 == value_model(item.1));
                    let ghost before = out@;
                    let (key, child) = item;
                    let entry = Json::from_value(child);
                    out.push((key, entry));
                    assert(members(out@) =~= members(before).push((key@, entry@)));
                    assert(members(out@) =~= value_members(items).take(i + 1));
                }
                assert(value_members(items).take(items.len() as int) =~= value_members(items));
                assert forall|k: int| 0 <= k < members(out@).len() implies well_formed(
                    (#[trigger] members(out@)[k]).1,
                ) by {
                    assert(well_formed(out@[k].1@));
                }
                Json::Object(out)
            },
        }
    }

    /// The `serde_json::Value` of a document.
    pub fn to_value(&self) -> (res: serde_json::Value)
        ensures
            value_model(res) == normalized(self@),
        decreases self,
    {
        broadcast use group_json;

        match self {
            Json::Null => close_value(Layer::Null),
            Json::Bool(b) => close_value(Layer::Bool(*b)),
            Json::Number(n) => close_value(Layer::Number(clone_number(n))),
            Json::String(s) => close_value(Layer::String(s.clone())),
            Json::Array(v) => {
                let mut out: Vec<serde_json::Value> = Vec::new();
                let mut i: usize = 0;
                let ghost goal = normalized(self@)->Array_0;
                while i < v.len()
                    invariant
                        *self == Json::Array(*v),
                        self@ == JsonView::Array(elements(v@)),
                        goal == normalized(self@)->Array_0,
                        i <= v@.len(),
                        value_elements(out@) == goal.take(i as int),
                    decreases v@.len() - i,
                {
                    assert(decreases_to!(*self => self->Array_0));
                    assert(decreases_to!(*v => v@));
                    assert(decreases_to!(v@ => v@[i as int]));
                    assert(decreases_to!(*self => v@[i as int]));
                    let item = v[i].to_value();
                    let ghost before = out@;
                    out.push(item);
                    assert(value_elements(out@) =~= value_elements(before).push(value_model(item)));
                    assert(value_elements(out@) =~= goal.take(i + 1));
                    i = i + 1;
                }
                assert(goal.take(i as int) =~= goal);
                close_value(Layer::Array(out))
            },
            Json::Object(v) => {
                let mut out: Vec<(String, serde_json::Value)> = Vec::new();
                let mut i: usize = 0;
                let ghost m = members(v@);
                let ghost goal = normalized_members(m);
                while i < v.len()
                    invariant
                        *self == Json::Object(*v),
                        m == members(v@),
                        goal.len() == m.len(),
                        forall|k: int|
                            0 <= k < m.len() ==> #[trigger] goal[k] == (m[k].0, normalized(m[k].1)),
                        i <= v@.len(),
                        value_members(out@) == goal.take(i as int),
                    decreases v@.len() - i,
                {
                    assert(decreases_to!(*self => self->Object_0));
                    assert(decreases_to!(*v => v@));
                    assert(decreases_to!(v@ => v@[i as int]));
                    assert(decreases_to!(v@[i as int] => v@[i as int].1));
                    assert(decreases_to!(*self => v@[i as int].1));
                    let item = v[i].1.to_value();
                    let ghost before = out@;
                    let key = v[i].0.clone();
                    out.push((key, item));
                    assert(value_members(out@) =~= value_members(before).push(
                        (key@, value_model(item)),
                    ));
                    assert(value_members(out@) =~= goal.take(i + 1));
                    i = i + 1;
                }
                assert(goal.take(i as int) =~= goal);
                close_value(Layer::Object(out))
            },
        }
    }

    /// Reads a document from its text.
    pub fn parse(text: &str) -> (res: Option<Json>)
        ensures
            opt_model(res) == parsed_text(text@),
            res matches Some(j) ==> well_formed(j@),
    {
        match read_value(text) {
            Some(value) => Some(Json::from_value(value)),
            None => None,
        }
    }

    /// The compact JSON text of the document.
    pub fn text(&self) -> (res: String)
        ensures
            res@ == json_text(self@),
    {
        write_value(&self.to_value())
    }

    /// A string as it is, anything else as JSON.
    pub fn plain(&self) -> (res: String)
        ensures
            res@ == plain_text(self@),
    {
        match self {
            Json::String(s) => s.clone(),
            _ => self.text(),
        }
    }

    /// The text of a string, a boolean or a number.
    pub fn scalar(&self) -> (res: Option<String>)
        ensures
            opt_text(res) == scalar_text(self@),
    {
        match self {
            Json::String(s) => Some(s.clone()),
            Json::Bool(b) => Some(
                if *b {
                    "true".to_owned()
                } else {
                    "false".to_owned()
                },
            ),
            Json::Number(n) => Some(number_text(n)),
            _ => None,
        }
    }

    /// Whether two documents are equal; the order of an object's entries does not matter.
    pub fn same(&self, other: &Json) -> (res: bool)
        ensures
            res == same_json(self@, other@),
        decreases self,
    {
        broadcast use group_json;

        match (self, other) {
            (Json::Null, Json::Null) => true,
            (Json::Bool(a), Json::Bool(b)) => *a == *b,
            (Json::Number(a), Json::Number(b)) => numbers_equal(a, b),
            (Json::String(a), Json::String(b)) => *a == *b,
            (Json::Array(a), Json::Array(b)) => {
                if a.len() != b.len() {
                    return false;
                }
                let mut i: usize = 0;
                while i < a.len()
                    invariant
                        *self == Json::Array(*a),
                        a@.len() == b@.len(),
                        i <= a@.len(),
                        self@ == JsonView::Array(elements(a@)),
                        other@ == JsonView::Array(elements(b@)),
                        forall|k: int|
                            0 <= k < i ==> same_json(
                                #[trigger] elements(a@)[k],
                                elements(b@)[k],
                            ),
                    decreases a@.len() - i,
                {
                    assert(decreases_to!(*self => self->Array_0));
                    assert(decreases_to!(*a => a@));
                    assert(decreases_to!(a@ => a@[i as int]));
                    assert(decreases_to!(*self => a@[i as int]));
                    if !a[i].same(&b[i]) {
                        assert(!same_json(elements(a@)[i as int], elements(b@)[i as int]));
                        return false;
                    }
                    i = i + 1;
                }
                true
            },
            (Json::Object(a), Json::Object(b)) => {
                if a.len() != b.len() {
                    return false;
                }
                let mut i: usize = 0;
                while i < a.len()
                    invariant
                        *self == Json::Object(*a),
                        a@.len() == b@.len(),
                        i <= a@.len(),
                        self@ == JsonView::Object(members(a@)),
                        other@ == JsonView::Object(members(b@)),
                        forall|k: int|
                            0 <= k < i ==> (lookup(
                                members(b@),
                                (#[trigger] members(a@)[k]).0,
                            ) matches Some(v) && same_json(members(a@)[k].1, v)),
                    decreases a@.len() - i,
                {
                    assert(decreases_to!(*self => self->Object_0));
                    assert(decreases_to!(*a => a@));
                    assert(decreases_to!(a@ => a@[i as int]));
                    assert(decreases_to!(a@[i as int] => a@[i as int].1));
                    assert(decreases_to!(*self => a@[i as int].1));
                    let ghost entry = members(a@)[i as int];
                    let at: usize = find_member(b, a[i].0.as_str());
                    if at >= b.len() {
                        assert(lookup(members(b@), entry.0) is None);
                        return false;
                    }
                    assert(members(b@)[at as int].1 == b@[at as int].1@);
                    if !a[i].1.same(&b[at].1) {
                        assert(lookup(members(b@), entry.0) == Some(members(b@)[at as int].1));
                        return false;
                    }
                    i = i + 1;
                }
                true
            },
            _ => false,
        }
    }
}

/// The strings among the items.
pub open spec fn strings_of(a: Seq<JsonView>) -> Seq<Seq<char>>
    decreases a.len(),
{
    if a.len() == 0 {
        Seq::empty()
    } else {
        let before = strings_of(a.drop_last());
        match a.last() {
            JsonView::String(s) => before.push(s),
            _ => before,
        }
    }
}

pub(crate) fn string_items(a: &Vec<Json>) -> (res: Texts)
    ensures
        res@ == strings_of(elements(a@)),
{
    let ghost all = elements(a@);
    let mut out = Texts::new();
    let mut i: usize = 0;
    assert(all.take(0) =~= Seq::empty());
    while i < a.len()
        invariant
            i <= a@.len(),
            all == elements(a@),
            out@ == strings_of(all.take(i as int)),
        decreases a@.len() - i,
    {
        assert(all.take(i + 1).drop_last() =~= all.take(i as int));
        if let Json::String(s) = &a[i] {
            out.push(s.clone());
        }
        i = i + 1;
    }
    assert(all.take(i as int) =~= all);
    out
}

/// The texts of scalars: strings stand for themselves, booleans and whole numbers for their usual
/// texts, and nothing else has one.
pub proof fn law_scalar_texts(s: Seq<char>, b: bool, a: Seq<JsonView>, m: Seq<(Seq<char>, JsonView)>)
    ensures
        scalar_text(JsonView::String(s)) == Some(s),
        scalar_text(JsonView::Bool(true)) == Some("true"@),
        scalar_text(JsonView::Bool(false)) == Some("false"@),
        scalar_text(JsonView::Null) is None,
        scalar_text(JsonView::Array(a)) is None,
        scalar_text(JsonView::Object(m)) is None,
        plain_text(JsonView::String(s)) == s,
        plain_text(JsonView::Bool(b)) == compact_text(JsonView::Bool(b)),
{
}

/// The strings of a list are taken in their order and nothing else is.
pub proof fn law_strings_of(a: Seq<JsonView>, s: Seq<char>, other: JsonView)
    ensures
        strings_of(a.push(JsonView::String(s))) == strings_of(a).push(s),
        !(other is String) ==> strings_of(a.push(other)) == strings_of(a),
        strings_of(Seq::empty()).len() == 0,
{
    assert(a.push(JsonView::String(s)).drop_last() =~= a);
    assert(a.push(other).drop_last() =~= a);
}

/// Equality of numbers goes both ways, and an integer never equals a number with a fraction; the two
/// zeros with a fraction are equal.
pub proof fn law_same_numbers(a: NumberView, b: NumberView, s: Seq<char>, t: Seq<char>)
    ensures
        same_number(a, a),
        same_number(a, b) == same_number(b, a),
        a is Float != b is Float ==> !same_number(a, b),
        same_number(NumberView::Float("0.0"@), NumberView::Float("-0.0"@)),
        s != "0.0"@ && s != "-0.0"@ ==> (same_number(NumberView::Float(s), NumberView::Float(t))
            <==> s == t),
        !(a is Float) ==> (same_number(a, b) <==> a == b),
{
}

} // verus!
