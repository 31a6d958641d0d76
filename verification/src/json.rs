//! JSON values.
//!
//! [`Json`] is the value the rest of the library reads and builds. `serde_json` does the parsing
//! and the printing; the conversion between its values and [`Json`] is verified node by node.

use vstd::prelude::*;
use crate::text::{decimal, same, strs};

verus! {

// ── Values ──────────────────────────────────────────────────────────────────────────────────

/// A JSON value. Of two fields with one name in an object, the first counts.
pub enum Json {
    /// The value `null`.
    Null,
    /// A boolean.
    Bool(bool),
    /// A number.
    Number(serde_json::Number),
    /// A string.
    Str(String),
    /// A list of values.
    Array(Vec<Json>),
    /// Named values.
    Object(Vec<(String, Json)>),
}

/// What a JSON value holds; a number is held by its text.
pub enum JsonView {
    Null,
    Bool(bool),
    Number(Seq<char>),
    Str(Seq<char>),
    Array(Seq<JsonView>),
    Object(Map<Seq<char>, JsonView>),
}

/// What `j` holds.
pub open spec fn json_view(j: Json) -> JsonView
    decreases j,
{
    match j {
        Json::Null => JsonView::Null,
        Json::Bool(b) => JsonView::Bool(b),
        Json::Number(n) => JsonView::Number(number_text(n)),
        Json::Str(s) => JsonView::Str(s@),
        Json::Array(v) => JsonView::Array(list_view(v@)),
        Json::Object(v) => JsonView::Object(fields_view(v@)),
    }
}

/// What each value of a list holds.
pub open spec fn list_view(v: Seq<Json>) -> Seq<JsonView>
    decreases v,
{
    if v.len() == 0 {
        Seq::empty()
    } else {
        list_view(v.drop_last()).push(json_view(v.last()))
    }
}

/// The value of each field name; the first field with a name counts.
pub open spec fn fields_view(v: Seq<(String, Json)>) -> Map<Seq<char>, JsonView>
    decreases v,
{
    if v.len() == 0 {
        Map::empty()
    } else {
        let before = fields_view(v.drop_last());
        if before.contains_key(v.last().0@) {
            before
        } else {
            before.insert(v.last().0@, json_view(v.last().1))
        }
    }
}

impl View for Json {
    type V = JsonView;

    open spec fn view(&self) -> JsonView {
        json_view(*self)
    }
}

impl JsonView {
    /// The value of the field `key`, where this is an object that has it.
    pub open spec fn field(self, key: Seq<char>) -> Option<JsonView> {
        match self {
            JsonView::Object(f) => if f.contains_key(key) {
                Some(f[key])
            } else {
                None
            },
            _ => None,
        }
    }

    /// The characters, where this is a string.
    pub open spec fn text(self) -> Option<Seq<char>> {
        match self {
            JsonView::Str(s) => Some(s),
            _ => None,
        }
    }

    /// The characters of the field `key`, where this is an object that has a string there.
    pub open spec fn text_field(self, key: Seq<char>) -> Option<Seq<char>> {
        match self.field(key) {
            Some(v) => v.text(),
            None => None,
        }
    }

    /// The elements, where this is a list.
    pub open spec fn elements(self) -> Option<Seq<JsonView>> {
        match self {
            JsonView::Array(a) => Some(a),
            _ => None,
        }
    }
}

/// The strings among the values of a list, in order.
pub open spec fn texts(v: Seq<JsonView>) -> Seq<Seq<char>>
    decreases v.len(),
{
    if v.len() == 0 {
        Seq::empty()
    } else {
        match v.last().text() {
            Some(s) => texts(v.drop_last()).push(s),
            None => texts(v.drop_last()),
        }
    }
}

pub proof fn lemma_list_view(v: Seq<Json>)
    ensures
        list_view(v).len() == v.len(),
        forall|i: int| 0 <= i < v.len() ==> #[trigger] list_view(v)[i] == json_view(v[i]),
    decreases v.len(),
{
    if v.len() > 0 {
        lemma_list_view(v.drop_last());
    }
}

/// Whether field `i` is the first one named `key`.
pub open spec fn first_named(v: Seq<(String, Json)>, key: Seq<char>, i: int) -> bool {
    &&& 0 <= i < v.len()
    &&& v[i].0@ == key
    &&& forall|k: int| 0 <= k < i ==> (#[trigger] v[k]).0@ != key
}

/// The value of a name is that of the first field with the name.
pub proof fn lemma_first_field(v: Seq<(String, Json)>, key: Seq<char>, i: int)
    requires
        first_named(v, key, i),
    ensures
        fields_view(v).contains_key(key),
        fields_view(v)[key] == json_view(v[i].1),
    decreases v.len(),
{
    let w = v.drop_last();
    if i < w.len() {
        assert forall|k: int| 0 <= k < i implies (#[trigger] w[k]).0@ != key by {
            assert(w[k] == v[k]);
        }
        assert(first_named(w, key, i));
        lemma_first_field(w, key, i);
    } else {
        assert forall|k: int| 0 <= k < w.len() implies (#[trigger] w[k]).0@ != key by {
            assert(w[k] == v[k]);
        }
        lemma_no_field(w, key);
    }
}

/// A name that no field has stands for nothing.
pub proof fn lemma_no_field(v: Seq<(String, Json)>, key: Seq<char>)
    requires
        forall|k: int| 0 <= k < v.len() ==> (#[trigger] v[k]).0@ != key,
    ensures
        !fields_view(v).contains_key(key),
    decreases v.len(),
{
    if v.len() > 0 {
        let w = v.drop_last();
        assert forall|k: int| 0 <= k < w.len() implies (#[trigger] w[k]).0@ != key by {
            assert(w[k] == v[k]);
        }
        lemma_no_field(w, key);
        assert(v[v.len() - 1].0@ != key);
    }
}

/// A name that stands for something has a first field.
pub proof fn lemma_known_field(v: Seq<(String, Json)>, key: Seq<char>) -> (i: int)
    requires
        fields_view(v).contains_key(key),
    ensures
        first_named(v, key, i),
    decreases v.len(),
{
    let w = v.drop_last();
    if fields_view(w).contains_key(key) {
        let i = lemma_known_field(w, key);
        assert forall|k: int| 0 <= k < i implies (#[trigger] v[k]).0@ != key by {
            assert(w[k] == v[k]);
        }
        i
    } else {
        assert forall|k: int| 0 <= k < w.len() implies (#[trigger] w[k]).0@ != key by {
            if w[k].0@ == key {
                let j = lemma_least_named(w, key, k);
                lemma_first_field(w, key, j);
            }
        }
        assert forall|k: int| 0 <= k < w.len() implies (#[trigger] v[k]).0@ != key by {
            assert(w[k] == v[k]);
        }
        v.len() - 1
    }
}

/// Where some field is named `key`, there is a first one.
pub proof fn lemma_least_named(v: Seq<(String, Json)>, key: Seq<char>, j: int) -> (i: int)
    requires
        0 <= j < v.len(),
        v[j].0@ == key,
    ensures
        first_named(v, key, i),
        i <= j,
    decreases j,
{
    if exists|k: int| 0 <= k < j && (#[trigger] v[k]).0@ == key {
        let k = choose|k: int| 0 <= k < j && (#[trigger] v[k]).0@ == key;
        lemma_least_named(v, key, k)
    } else {
        j
    }
}

/// The position of the first field named `key`.
fn field_position(v: &Vec<(String, Json)>, key: &str) -> (r: Option<usize>)
    ensures
        match r {
            Some(i) => first_named(v@, key@, i as int) && fields_view(v@).contains_key(key@)
                && fields_view(v@)[key@] == v@[i as int].1@,
            None => !fields_view(v@).contains_key(key@),
        },
{
    let mut i: usize = 0;
    while i < v.len()
        invariant
            i <= v.len(),
            forall|k: int| 0 <= k < i ==> (#[trigger] v@[k]).0@ != key@,
        decreases v.len() - i,
    {
        if same(v[i].0.as_str(), key) {
            proof {
                lemma_first_field(v@, key@, i as int);
            }
            return Some(i);
        }
        i = i + 1;
    }
    proof {
        lemma_no_field(v@, key@);
    }
    None
}

impl Json {
    /// The value of the field `key`, where this is an object that has it.
    pub fn get(&self, key: &str) -> (r: Option<&Json>)
        ensures
            match r {
                Some(j) => self@.field(key@) == Some(j@),
                None => self@.field(key@) is None,
            },
    {
        match self {
            Json::Object(v) => match field_position(v, key) {
                Some(i) => Some(&v[i].1),
                None => None,
            },
            _ => None,
        }
    }

    /// The string, where this is one.
    pub fn as_str(&self) -> (r: Option<&str>)
        ensures
            match r {
                Some(s) => self@.text() == Some(s@),
                None => self@.text() is None,
            },
    {
        match self {
            Json::Str(s) => Some(s.as_str()),
            _ => None,
        }
    }

    /// The string in the field `key`, where this is an object that has one there.
    pub fn get_str(&self, key: &str) -> (r: Option<String>)
        ensures
            match r {
                Some(s) => self@.text_field(key@) == Some(s@),
                None => self@.text_field(key@) is None,
            },
    {
        match self.get(key) {
            Some(v) => match v.as_str() {
                Some(s) => Some(s.to_owned()),
                None => None,
            },
            None => None,
        }
    }

    /// Whether the field `key` is the boolean `b`.
    pub fn field_is(&self, key: &str, b: bool) -> (r: bool)
        ensures
            r == (self@.field(key@) == Some(JsonView::Bool(b))),
    {
        match self.get(key) {
            Some(Json::Bool(c)) => *c == b,
            _ => false,
        }
    }

    /// The strings among the elements of the list in the field `key`; none without such a list.
    pub fn get_texts(&self, key: &str) -> (r: Vec<String>)
        ensures
            strs(r@) == match self@.field(key@) {
                Some(JsonView::Array(a)) => texts(a),
                _ => Seq::empty(),
            },
    {
        match self.get(key) {
            Some(Json::Array(a)) => texts_of(a),
            _ => {
                let none: Vec<String> = Vec::new();
                assert(strs(none@) == Seq::<Seq<char>>::empty());
                none
            },
        }
    }

    /// A copy.
    pub fn copy(&self) -> (r: Json)
        ensures
            r@ == self@,
        decreases self,
    {
        match self {
            Json::Null => Json::Null,
            Json::Bool(b) => Json::Bool(*b),
            Json::Number(n) => Json::Number(n.clone()),
            Json::Str(s) => Json::Str(s.clone()),
            Json::Array(v) => {
                let mut out: Vec<Json> = Vec::new();
                let mut i: usize = 0;
                while i < v.len()
                    invariant
                        i <= v.len(),
                        *self == Json::Array(*v),
                        list_view(out@) == list_view(v@.take(i as int)),
                    decreases v.len() - i,
                {
                    let ghost prev = out@;
                    assert(decreases_to!(*self => (*self)->Array_0));
                    assert(decreases_to!(*v => v@));
                    assert(decreases_to!(v@ => v@[i as int]));
                    out.push(v[i].copy());
                    assert(out@.drop_last() == prev);
                    assert(v@.take(i + 1).drop_last() == v@.take(i as int));
                    i = i + 1;
                }
                assert(v@.take(v@.len() as int) == v@);
                Json::Array(out)
            },
            Json::Object(v) => {
                let mut out: Vec<(String, Json)> = Vec::new();
                let mut i: usize = 0;
                while i < v.len()
                    invariant
                        i <= v.len(),
                        *self == Json::Object(*v),
                        fields_view(out@) == fields_view(v@.take(i as int)),
                    decreases v.len() - i,
                {
                    let ghost prev = out@;
                    assert(decreases_to!(*self => (*self)->Object_0));
                    assert(decreases_to!(*v => v@));
                    assert(decreases_to!(v@ => v@[i as int]));
                    assert(decreases_to!(v@[i as int] => v@[i as int].1));
                    out.push((v[i].0.clone(), v[i].1.copy()));
                    assert(out@.drop_last() == prev);
                    assert(v@.take(i + 1).drop_last() == v@.take(i as int));
                    i = i + 1;
                }
                assert(v@.take(v@.len() as int) == v@);
                Json::Object(out)
            },
        }
    }
}

/// The strings among the values of a list.
pub fn texts_of(v: &Vec<Json>) -> (r: Vec<String>)
    ensures
        strs(r@) == texts(list_view(v@)),
{
    let mut out: Vec<String> = Vec::new();
    let mut i: usize = 0;
    assert(strs(out@) == Seq::<Seq<char>>::empty());
    while i < v.len()
        invariant
            i <= v.len(),
            strs(out@) == texts(list_view(v@.take(i as int))),
        decreases v.len() - i,
    {
        let ghost prev = out@;
        proof {
            let t = v@.take(i + 1);
            assert(t.drop_last() == v@.take(i as int));
            assert(list_view(t).drop_last() == list_view(v@.take(i as int)));
        }
        if let Some(s) = v[i].as_str() {
            out.push(s.to_owned());
            assert(strs(out@) == strs(prev).push(s@));
        }
        i = i + 1;
    }
    assert(v@.take(v@.len() as int) == v@);
    out
}

/// Sets the first field named `key`, or adds the field.
pub fn set_field(v: &mut Vec<(String, Json)>, key: &str, value: Json)
    ensures
        fields_view(final(v)@) == fields_view(old(v)@).insert(key@, value@),
{
    let ghost all = v@;
    match field_position(v, key) {
        Some(i) => {
            let name = key.to_owned();
            v.set(i, (name, value));
            proof {
                lemma_set_field(all, i as int, (name, value));
            }
        },
        None => {
            v.push((key.to_owned(), value));
            assert(v@.drop_last() == all);
        },
    }
}

/// The fields with one put in front: its value counts.
pub proof fn lemma_front_field(f: (String, Json), v: Seq<(String, Json)>)
    ensures
        fields_view(seq![f] + v) == fields_view(v).insert(f.0@, json_view(f.1)),
    decreases v.len(),
{
    let w = seq![f] + v;
    if v.len() == 0 {
        assert(w.drop_last() == Seq::<(String, Json)>::empty());
        assert(fields_view(w.drop_last()) == Map::<Seq<char>, JsonView>::empty());
        assert(w.last() == f);
        assert(fields_view(w) =~= fields_view(v).insert(f.0@, json_view(f.1)));
    } else {
        let t = v.drop_last();
        lemma_front_field(f, t);
        assert(w.drop_last() == seq![f] + t);
        assert(w.last() == v.last());
        assert(fields_view(w) =~= fields_view(v).insert(f.0@, json_view(f.1)));
    }
}

/// Sets every field of `b` in `a`.
pub fn merge_fields(a: &mut Vec<(String, Json)>, b: &Vec<(String, Json)>)
    ensures
        fields_view(final(a)@) == fields_view(old(a)@).union_prefer_right(fields_view(b@)),
{
    let ghost start = fields_view(a@);
    let mut i: usize = b.len();
    assert(b@.subrange(b@.len() as int, b@.len() as int) == Seq::<(String, Json)>::empty());
    assert(start =~= start.union_prefer_right(Map::empty()));
    while 0 < i
        invariant
            i <= b.len(),
            fields_view(a@) == start.union_prefer_right(
                fields_view(b@.subrange(i as int, b@.len() as int)),
            ),
        decreases i,
    {
        i = i - 1;
        let ghost rest = b@.subrange(i + 1, b@.len() as int);
        proof {
            lemma_front_field(b@[i as int], rest);
            assert(seq![b@[i as int]] + rest == b@.subrange(i as int, b@.len() as int));
        }
        set_field(a, b[i].0.as_str(), b[i].1.copy());
        assert(fields_view(a@) =~= start.union_prefer_right(
            fields_view(b@.subrange(i as int, b@.len() as int)),
        ));
    }
    assert(b@.subrange(0, b@.len() as int) == b@);
}

proof fn lemma_set_field(v: Seq<(String, Json)>, i: int, f: (String, Json))
    requires
        first_named(v, f.0@, i),
    ensures
        fields_view(v.update(i, f)) == fields_view(v).insert(f.0@, json_view(f.1)),
{
    let w = v.update(i, f);
    let goal = fields_view(v).insert(f.0@, json_view(f.1));
    assert forall|k: int| 0 <= k < v.len() implies (#[trigger] v[k]).0@ == w[k].0@ by {}
    assert forall|key: Seq<char>| #[trigger]
        fields_view(w).contains_key(key) == goal.contains_key(key) by {
        if fields_view(w).contains_key(key) {
            let j = lemma_known_field(w, key);
            assert(v[j].0@ == key);
            let q = lemma_least_named(v, key, j);
            lemma_first_field(v, key, q);
        }
        if fields_view(v).contains_key(key) {
            let j = lemma_known_field(v, key);
            assert(w[j].0@ == key);
            let q = lemma_least_named(w, key, j);
            lemma_first_field(w, key, q);
        }
        if key == f.0@ {
            let q = lemma_least_named(w, key, i);
            lemma_first_field(w, key, q);
        }
    }
    assert forall|key: Seq<char>| #[trigger] fields_view(w).contains_key(key) implies fields_view(
        w,
    )[key] == goal[key] by {
        let j = lemma_known_field(w, key);
        lemma_first_field(w, key, j);
        assert(v[j].0@ == key);
        if key == f.0@ {
            if i < j {
                assert(w[i].0@ == key);
            }
            if j < i {
                assert(v[j].0@ == key);
            }
            assert(i == j);
        } else {
            assert forall|k: int| 0 <= k < j implies (#[trigger] v[k]).0@ != key by {
                assert(w[k].0@ != key);
            }
            lemma_first_field(v, key, j);
            assert(v[j] == w[j]);
        }
    }
    assert(fields_view(w) =~= goal);
}

// ── Values of `serde_json` ──────────────────────────────────────────────────────────────────

/// The value type of `serde_json`.
#[verifier::external_type_specification]
#[verifier::external_body]
pub struct ExValue(serde_json::Value);

/// The number type of `serde_json`.
#[verifier::external_type_specification]
#[verifier::external_body]
pub struct ExNumber(serde_json::Number);

/// `serde_json::Number::clone` makes an equal number.
pub assume_specification[ <serde_json::Number as Clone>::clone ](
    n: &serde_json::Number,
) -> (r: serde_json::Number)
    ensures
        r == *n,
;

/// The text of a `serde_json` number.
pub uninterp spec fn number_text(n: serde_json::Number) -> Seq<char>;

/// What a `serde_json` value holds: its variant with the same contents.
pub uninterp spec fn value_holds(v: serde_json::Value) -> JsonView;

/// What `serde_json` reads from a text: the value it stands for, or nothing where it is no JSON
/// document.
pub uninterp spec fn json_document(text: Seq<char>) -> Option<JsonView>;

/// The compact text that `serde_json` writes for a value.
pub uninterp spec fn json_text(v: JsonView) -> Seq<char>;

/// One level of a `serde_json` value.
enum Node<'a> {
    Null,
    Bool(bool),
    Number(serde_json::Number),
    Str(String),
    Array(&'a Vec<serde_json::Value>),
    Object(Vec<(&'a String, &'a serde_json::Value)>),
}

spec fn values_hold(v: Seq<serde_json::Value>) -> Seq<JsonView> {
    v.map_values(|x: serde_json::Value| value_holds(x))
}

/// Whether the entries list the fields of `m`, each once.
spec fn entries_hold(v: Seq<(&String, &serde_json::Value)>, m: Map<Seq<char>, JsonView>) -> bool {
    &&& forall|i: int, j: int|
        0 <= i < j < v.len() ==> (#[trigger] v[i]).0@ != (#[trigger] v[j]).0@
    &&& forall|i: int|
        0 <= i < v.len() ==> m.contains_key((#[trigger] v[i]).0@) && m[v[i].0@] == value_holds(
            *v[i].1,
        )
    &&& forall|k: Seq<char>| #[trigger]
        m.contains_key(k) ==> exists|i: int| 0 <= i < v.len() && (#[trigger] v[i]).0@ == k
}

spec fn node_holds(n: Node<'_>, v: JsonView) -> bool {
    match n {
        Node::Null => v == JsonView::Null,
        Node::Bool(b) => v == JsonView::Bool(b),
        Node::Number(x) => v == JsonView::Number(number_text(x)),
        Node::Str(s) => v == JsonView::Str(s@),
        Node::Array(a) => v == JsonView::Array(values_hold(a@)),
        Node::Object(e) => v matches JsonView::Object(m) && m.dom().finite() && entries_hold(e@, m),
    }
}

/// Takes a `serde_json::Value` apart by its variant: the same scalar, the same elements, or the
/// same entries, whose names differ from each other.
#[verifier::external_body]
fn open_value<'a>(v: &'a serde_json::Value) -> (n: Node<'a>)
    ensures
        node_holds(n, value_holds(*v)),
{
    match v {
        serde_json::Value::Null => Node::Null,
        serde_json::Value::Bool(b) => Node::Bool(*b),
        serde_json::Value::Number(n) => Node::Number(n.clone()),
        serde_json::Value::String(s) => Node::Str(s.clone()),
        serde_json::Value::Array(a) => Node::Array(a),
        serde_json::Value::Object(m) => Node::Object(m.iter().collect()),
    }
}

/// `serde_json::from_str::<serde_json::Value>`: the value that the text stands for, or nothing
/// where it fails.
#[verifier::external_body]
fn parse_value(text: &str) -> (r: Option<serde_json::Value>)
    ensures
        match r {
            Some(v) => json_document(text@) == Some(value_holds(v)),
            None => json_document(text@) is None,
        },
{
    serde_json::from_str::<serde_json::Value>(text).ok()
}

/// The value with the contents of a `serde_json` value.
fn from_value(v: &serde_json::Value) -> (r: Json)
    ensures
        r@ == value_holds(*v),
    decreases value_holds(*v),
{
    match open_value(v) {
        Node::Null => Json::Null,
        Node::Bool(b) => Json::Bool(b),
        Node::Number(n) => Json::Number(n),
        Node::Str(s) => Json::Str(s),
        Node::Array(items) => {
            let mut out: Vec<Json> = Vec::new();
            let mut i: usize = 0;
            while i < items.len()
                invariant
                    value_holds(*v) == JsonView::Array(values_hold(items@)),
                    i <= items.len(),
                    out.len() == i,
                    forall|k: int| 0 <= k < i ==> (#[trigger] out@[k])@ == value_holds(items@[k]),
                decreases items.len() - i,
            {
                assert(value_holds(*v)->Array_0[i as int] == value_holds(items@[i as int]));
                out.push(from_value(&items[i]));
                i = i + 1;
            }
            proof {
                lemma_list_view(out@);
                assert(list_view(out@) == values_hold(items@));
            }
            Json::Array(out)
        },
        Node::Object(items) => {
            let ghost m = value_holds(*v)->Object_0;
            let mut out: Vec<(String, Json)> = Vec::new();
            let mut i: usize = 0;
            while i < items.len()
                invariant
                    value_holds(*v) == JsonView::Object(m),
                    m.dom().finite(),
                    entries_hold(items@, m),
                    i <= items.len(),
                    out.len() == i,
                    forall|k: int|
                        0 <= k < i ==> (#[trigger] out@[k]).0@ == items@[k].0@ && out@[k].1@
                            == value_holds(*items@[k].1),
                decreases items.len() - i,
            {
                assert(m.contains_key(items@[i as int].0@));
                assert(m[items@[i as int].0@] == value_holds(*items@[i as int].1));
                assert(decreases_to!(value_holds(*v) => value_holds(*v)->Object_0));
                assert(decreases_to!(m => m[items@[i as int].0@]));
                let item = items[i];
                out.push((item.0.clone(), from_value(item.1)));
                i = i + 1;
            }
            proof {
                assert forall|k: Seq<char>| #[trigger]
                    fields_view(out@).contains_key(k) == m.contains_key(k) by {
                    if m.contains_key(k) {
                        let j = choose|j: int|
                            0 <= j < items.len() && (#[trigger] items@[j]).0@ == k;
                        let q = lemma_least_named(out@, k, j);
                        lemma_first_field(out@, k, q);
                    }
                    if fields_view(out@).contains_key(k) {
                        let j = lemma_known_field(out@, k);
                        assert(m.contains_key(items@[j].0@));
                    }
                }
                assert forall|k: Seq<char>| #[trigger] fields_view(out@).contains_key(k) implies
                    fields_view(out@)[k] == m[k] by {
                    let j = lemma_known_field(out@, k);
                    lemma_first_field(out@, k, j);
                    assert(m[items@[j].0@] == value_holds(*items@[j].1));
                }
                assert(fields_view(out@) =~= m);
            }
            Json::Object(out)
        },
    }
}

/// The value that a text stands for, or nothing where it is no JSON document.
pub fn parse(text: &str) -> (r: Option<Json>)
    ensures
        match r {
            Some(j) => json_document(text@) == Some(j@),
            None => json_document(text@) is None,
        },
{
    match parse_value(text) {
        Some(v) => Some(from_value(&v)),
        None => None,
    }
}

/// `serde_json::to_string` on a value, which writes it without white space between its parts and
/// does not fail on a `serde_json::Value`.
#[verifier::external_body]
fn value_text(v: &serde_json::Value) -> (r: String)
    ensures
        r@ == json_text(value_holds(*v)),
{
    serde_json::to_string(v).unwrap_or_default()
}

/// The parts of a `serde_json` value that is to be built.
enum Parts {
    Null,
    Bool(bool),
    Number(serde_json::Number),
    Str(String),
    Array(Vec<serde_json::Value>),
    Object(Vec<(String, serde_json::Value)>),
}

spec fn names_differ(v: Seq<(String, serde_json::Value)>) -> bool {
    forall|i: int, j: int| 0 <= i < j < v.len() ==> (#[trigger] v[i]).0@ != (#[trigger] v[j]).0@
}

/// Whether `m` holds the listed fields and no others.
spec fn fields_hold(v: Seq<(String, serde_json::Value)>, m: Map<Seq<char>, JsonView>) -> bool {
    &&& forall|i: int|
        0 <= i < v.len() ==> m.contains_key((#[trigger] v[i]).0@) && m[v[i].0@] == value_holds(
            v[i].1,
        )
    &&& forall|k: Seq<char>| #[trigger]
        m.contains_key(k) ==> exists|i: int| 0 <= i < v.len() && (#[trigger] v[i]).0@ == k
}

spec fn parts_hold(p: Parts, v: JsonView) -> bool {
    match p {
        Parts::Null => v == JsonView::Null,
        Parts::Bool(b) => v == JsonView::Bool(b),
        Parts::Number(x) => v == JsonView::Number(number_text(x)),
        Parts::Str(s) => v == JsonView::Str(s@),
        Parts::Array(a) => v == JsonView::Array(values_hold(a@)),
        Parts::Object(e) => v matches JsonView::Object(m) && fields_hold(e@, m),
    }
}

/// Builds a `serde_json::Value` of the given variant with the given contents.
#[verifier::external_body]
fn build_value(p: Parts) -> (v: serde_json::Value)
    requires
        p matches Parts::Object(e) ==> names_differ(e@),
    ensures
        parts_hold(p, value_holds(v)),
{
    match p {
        Parts::Null => serde_json::Value::Null,
        Parts::Bool(b) => serde_json::Value::Bool(b),
        Parts::Number(n) => serde_json::Value::Number(n),
        Parts::Str(s) => serde_json::Value::String(s),
        Parts::Array(a) => serde_json::Value::Array(a),
        Parts::Object(e) => serde_json::Value::Object(e.into_iter().collect()),
    }
}

/// The `serde_json` value with the same contents.
fn to_value(j: &Json) -> (r: serde_json::Value)
    ensures
        value_holds(r) == j@,
    decreases j,
{
    match j {
        Json::Null => build_value(Parts::Null),
        Json::Bool(b) => build_value(Parts::Bool(*b)),
        Json::Number(n) => build_value(Parts::Number(n.clone())),
        Json::Str(s) => build_value(Parts::Str(s.clone())),
        Json::Array(items) => {
            let mut out: Vec<serde_json::Value> = Vec::new();
            let mut i: usize = 0;
            while i < items.len()
                invariant
                    *j == Json::Array(*items),
                    i <= items.len(),
                    out.len() == i,
                    forall|k: int| 0 <= k < i ==> value_holds(#[trigger] out@[k]) == items@[k]@,
                decreases items.len() - i,
            {
                assert(decreases_to!(*j => (*j)->Array_0));
                assert(decreases_to!(*items => items@));
                assert(decreases_to!(items@ => items@[i as int]));
                out.push(to_value(&items[i]));
                i = i + 1;
            }
            proof {
                lemma_list_view(items@);
                assert(list_view(items@) == values_hold(out@));
            }
            build_value(Parts::Array(out))
        },
        Json::Object(items) => {
            let ghost m = fields_view(items@);
            let mut out: Vec<(String, serde_json::Value)> = Vec::new();
            let mut i: usize = 0;
            while i < items.len()
                invariant
                    *j == Json::Object(*items),
                    i <= items.len(),
                    names_differ(out@),
                    fields_hold(out@, fields_view(items@.take(i as int))),
                decreases items.len() - i,
            {
                let ghost t = items@.take(i + 1);
                let ghost prev = fields_view(items@.take(i as int));
                let ghost before = out@;
                assert(t.drop_last() == items@.take(i as int));
                let mut known = false;
                let mut k: usize = 0;
                while k < out.len()
                    invariant
                        k <= out.len(),
                        i < items.len(),
                        known == exists|q: int|
                            0 <= q < k && (#[trigger] out@[q]).0@ == items@[i as int].0@,
                    decreases out.len() - k,
                {
                    if same(out[k].0.as_str(), items[i].0.as_str()) {
                        known = true;
                        assert(out@[k as int].0@ == items@[i as int].0@);
                    }
                    k = k + 1;
                }
                if !known {
                    assert(!prev.contains_key(items@[i as int].0@));
                    let name = items[i].0.clone();
                    assert(decreases_to!(*j => (*j)->Object_0));
                    assert(decreases_to!(*items => items@));
                    assert(decreases_to!(items@ => items@[i as int]));
                    assert(decreases_to!(items@[i as int] => items@[i as int].1));
                    let value = to_value(&items[i].1);
                    out.push((name, value));
                    proof {
                        let now = fields_view(t);
                        assert(now == prev.insert(name@, items@[i as int].1@));
                        assert forall|q: int| 0 <= q < out.len() implies now.contains_key(
                            (#[trigger] out@[q]).0@,
                        ) && now[out@[q].0@] == value_holds(out@[q].1) by {
                            if q < before.len() {
                                assert(before[q] == out@[q]);
                                assert(before[q].0@ != name@);
                            }
                        }
                        assert forall|key: Seq<char>| #[trigger]
                            now.contains_key(key) implies exists|q: int|
                            0 <= q < out.len() && (#[trigger] out@[q]).0@ == key by {
                            if key == name@ {
                                assert(out@[before.len() as int].0@ == key);
                            } else {
                                let q = choose|q: int|
                                    0 <= q < before.len() && (#[trigger] before[q]).0@ == key;
                                assert(out@[q].0@ == key);
                            }
                        }
                    }
                } else {
                    assert(prev.contains_key(items@[i as int].0@));
                }
                i = i + 1;
            }
            assert(items@.take(items@.len() as int) == items@);
            let r = build_value(Parts::Object(out));
            proof {
                let held = value_holds(r)->Object_0;
                assert forall|k: Seq<char>| #[trigger] held.contains_key(k) == m.contains_key(k) by {
                    if held.contains_key(k) {
                        let q = choose|q: int| 0 <= q < out.len() && (#[trigger] out@[q]).0@ == k;
                        assert(m.contains_key(out@[q].0@));
                    }
                    if m.contains_key(k) {
                        let q = choose|q: int| 0 <= q < out.len() && (#[trigger] out@[q]).0@ == k;
                        assert(held.contains_key(out@[q].0@));
                    }
                }
                assert forall|k: Seq<char>| #[trigger] held.contains_key(k) implies held[k]
                    == m[k] by {
                    let q = choose|q: int| 0 <= q < out.len() && (#[trigger] out@[q]).0@ == k;
                    assert(m.contains_key(out@[q].0@));
                }
                assert(held =~= m);
            }
            r
        },
    }
}

/// The compact text of a value.
pub fn print(j: &Json) -> (r: String)
    ensures
        r@ == json_text(j@),
{
    let v = to_value(j);
    value_text(&v)
}

/// `serde_json::Number::from`, for a whole number: its text is the decimal notation.
#[verifier::external_body]
pub(crate) fn number_of(n: u64) -> (r: serde_json::Number)
    ensures
        number_text(r) == decimal(n as nat),
{
    serde_json::Number::from(n)
}

/// The strings of a list are those of its beginning followed by those of the rest; a value that is no
/// string adds none.
pub proof fn law_strings_are_picked_in_order(a: Seq<JsonView>, b: Seq<JsonView>, v: JsonView)
    ensures
        texts(a + b) == texts(a) + texts(b),
        v is Str ==> texts(seq![v]) == seq![v->Str_0],
        !(v is Str) ==> texts(seq![v]).len() == 0,
    decreases b.len(),
{
    if b.len() == 0 {
        assert(a + b =~= a);
        assert(texts(a) + texts(b) =~= texts(a));
    } else {
        assert((a + b).drop_last() =~= a + b.drop_last());
        law_strings_are_picked_in_order(a, b.drop_last(), v);
        assert(texts(a + b) =~= texts(a) + texts(b));
    }
    let one = seq![v];
    assert(one.drop_last() =~= Seq::<JsonView>::empty());
    assert(texts(one.drop_last()) =~= Seq::<Seq<char>>::empty());
    if v is Str {
        assert(texts(one) =~= seq![v->Str_0]);
    }
}

} // verus!
