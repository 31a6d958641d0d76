//! YAML values.
//!
//! [`Yaml`] is the value the rest of the library reads and edits. `serde_yaml_ng` does the parsing
//! and the printing; the conversion between its values and [`Yaml`] is verified node by node.

use vstd::prelude::*;
use crate::text::same;

verus! {

/// A YAML value. Scalars other than strings are carried as they are.
pub enum Yaml {
    /// A string.
    Str(String),
    /// A sequence.
    List(Vec<Yaml>),
    /// A mapping, with its entries in order.
    Mapping(Vec<(Yaml, Yaml)>),
    /// A value with a tag.
    Tagged(serde_yaml_ng::value::Tag, Box<Yaml>),
    /// A null, a boolean or a number.
    Scalar(serde_yaml_ng::Value),
}

/// What a YAML value holds.
pub enum YamlView {
    Str(Seq<char>),
    List(Seq<YamlView>),
    Mapping(Seq<(YamlView, YamlView)>),
    Tagged(serde_yaml_ng::value::Tag, Box<YamlView>),
    Scalar(serde_yaml_ng::Value),
}

/// What `y` holds.
pub open spec fn yaml_view(y: Yaml) -> YamlView
    decreases y,
{
    match y {
        Yaml::Str(s) => YamlView::Str(s@),
        Yaml::List(v) => YamlView::List(list_view(v@)),
        Yaml::Mapping(v) => YamlView::Mapping(map_view(v@)),
        Yaml::Tagged(t, v) => YamlView::Tagged(t, Box::new(yaml_view(*v))),
        Yaml::Scalar(v) => YamlView::Scalar(v),
    }
}

/// What each value of a list holds.
pub open spec fn list_view(v: Seq<Yaml>) -> Seq<YamlView>
    decreases v,
{
    if v.len() == 0 {
        Seq::empty()
    } else {
        list_view(v.drop_last()).push(yaml_view(v.last()))
    }
}

/// What each entry of a mapping holds.
pub open spec fn map_view(v: Seq<(Yaml, Yaml)>) -> Seq<(YamlView, YamlView)>
    decreases v,
{
    if v.len() == 0 {
        Seq::empty()
    } else {
        map_view(v.drop_last()).push((yaml_view(v.last().0), yaml_view(v.last().1)))
    }
}

impl View for Yaml {
    type V = YamlView;

    open spec fn view(&self) -> YamlView {
        yaml_view(*self)
    }
}

/// A string key.
pub open spec fn key(name: Seq<char>) -> YamlView {
    YamlView::Str(name)
}

/// The value of the first entry with the key `k`.
pub open spec fn lookup(m: Seq<(YamlView, YamlView)>, k: YamlView) -> Option<YamlView>
    decreases m.len(),
{
    if m.len() == 0 {
        None
    } else if m[0].0 == k {
        Some(m[0].1)
    } else {
        lookup(m.drop_first(), k)
    }
}

/// The entries with the value of the first one with the key `k` set to `v`, or with that entry
/// added at the end.
pub open spec fn put(m: Seq<(YamlView, YamlView)>, k: YamlView, v: YamlView) -> Seq<
    (YamlView, YamlView),
>
    decreases m.len(),
{
    if m.len() == 0 {
        seq![(k, v)]
    } else if m[0].0 == k {
        seq![(k, v)] + m.drop_first()
    } else {
        seq![m[0]] + put(m.drop_first(), k, v)
    }
}

impl YamlView {
    /// The value below all tags.
    pub open spec fn untagged(self) -> YamlView
        decreases self,
    {
        match self {
            YamlView::Tagged(_, v) => v.untagged(),
            v => v,
        }
    }

    /// The value with what stands below its tags replaced.
    pub open spec fn retagged(self, inner: YamlView) -> YamlView
        decreases self,
    {
        match self {
            YamlView::Tagged(t, v) => YamlView::Tagged(t, Box::new(v.retagged(inner))),
            _ => inner,
        }
    }

    /// The characters, where this is a string below its tags.
    pub open spec fn text(self) -> Option<Seq<char>> {
        match self.untagged() {
            YamlView::Str(s) => Some(s),
            _ => None,
        }
    }

    /// The entries, where this is a mapping below its tags.
    pub open spec fn entries(self) -> Option<Seq<(YamlView, YamlView)>> {
        match self.untagged() {
            YamlView::Mapping(m) => Some(m),
            _ => None,
        }
    }

    /// The elements, where this is a sequence below its tags.
    pub open spec fn elements(self) -> Option<Seq<YamlView>> {
        match self.untagged() {
            YamlView::List(l) => Some(l),
            _ => None,
        }
    }
}

/// The string that a mapping has under a name.
pub open spec fn string_field(m: Seq<(YamlView, YamlView)>, name: Seq<char>) -> Option<Seq<char>> {
    match lookup(m, key(name)) {
        Some(v) => v.text(),
        None => None,
    }
}

/// Whether `serde_yaml_ng` takes two values, neither of them a string, for the same key.
pub uninterp spec fn same_key(a: YamlView, b: YamlView) -> bool;

/// Whether two values cannot both be keys of a mapping. A string clashes with itself alone.
pub open spec fn clash(a: YamlView, b: YamlView) -> bool {
    if a is Str || b is Str {
        a == b
    } else {
        same_key(a, b)
    }
}

/// Whether no two entries have keys that clash.
pub open spec fn keys_differ(m: Seq<(YamlView, YamlView)>) -> bool {
    forall|i: int, j: int|
        0 <= i < j < m.len() ==> !clash((#[trigger] m[i]).0, (#[trigger] m[j]).0)
}

/// Whether every mapping within a value has distinct keys, and every scalar is one.
pub open spec fn valid(v: YamlView) -> bool
    decreases v,
{
    match v {
        YamlView::Str(_) => true,
        YamlView::Scalar(s) => value_holds(s) == v,
        YamlView::Tagged(_, w) => valid(*w),
        YamlView::List(l) => forall|i: int|
            #![trigger l[i]]
            0 <= i < l.len() ==> valid(l[i]),
        YamlView::Mapping(m) => keys_differ(m) && forall|i: int|
            0 <= i < m.len() ==> valid((#[trigger] m[i]).0) && valid(m[i].1),
    }
}

pub proof fn lemma_list_view(v: Seq<Yaml>)
    ensures
        list_view(v).len() == v.len(),
        forall|i: int| 0 <= i < v.len() ==> #[trigger] list_view(v)[i] == yaml_view(v[i]),
    decreases v.len(),
{
    if v.len() > 0 {
        lemma_list_view(v.drop_last());
    }
}

pub proof fn lemma_map_view(v: Seq<(Yaml, Yaml)>)
    ensures
        map_view(v).len() == v.len(),
        forall|i: int|
            0 <= i < v.len() ==> #[trigger] map_view(v)[i] == (yaml_view(v[i].0), yaml_view(
                v[i].1,
            )),
    decreases v.len(),
{
    if v.len() > 0 {
        lemma_map_view(v.drop_last());
    }
}

/// Setting an entry keeps the other entries' lookups.
pub proof fn lemma_put_lookup(
    m: Seq<(YamlView, YamlView)>,
    k: YamlView,
    v: YamlView,
    q: YamlView,
)
    ensures
        lookup(put(m, k, v), q) == if q == k {
            Some(v)
        } else {
            lookup(m, q)
        },
    decreases m.len(),
{
    let p = put(m, k, v);
    if m.len() == 0 {
        assert(p.drop_first() == Seq::<(YamlView, YamlView)>::empty());
    } else if m[0].0 == k {
        assert(p.drop_first() == m.drop_first());
    } else {
        assert(p.drop_first() == put(m.drop_first(), k, v));
        lemma_put_lookup(m.drop_first(), k, v, q);
    }
}

/// The keys after setting an entry: those before, and the one that was set.
proof fn lemma_put_keys(m: Seq<(YamlView, YamlView)>, k: YamlView, v: YamlView)
    ensures
        forall|i: int|
            0 <= i < put(m, k, v).len() ==> (#[trigger] put(m, k, v)[i]) == (k, v) || m.contains(
                put(m, k, v)[i],
            ),
    decreases m.len(),
{
    let p = put(m, k, v);
    if m.len() > 0 {
        if m[0].0 == k {
            assert forall|i: int| 0 <= i < p.len() implies (#[trigger] p[i]) == (k, v)
                || m.contains(p[i]) by {
                if i > 0 {
                    assert(p[i] == m[i]);
                }
            }
        } else {
            let rest = put(m.drop_first(), k, v);
            lemma_put_keys(m.drop_first(), k, v);
            assert forall|i: int| 0 <= i < p.len() implies (#[trigger] p[i]) == (k, v)
                || m.contains(p[i]) by {
                if i == 0 {
                    assert(p[0] == m[0]);
                } else {
                    assert(p[i] == rest[i - 1]);
                    if rest[i - 1] != (k, v) {
                        let j = choose|j: int|
                            0 <= j < m.drop_first().len() && m.drop_first()[j] == rest[i - 1];
                        assert(m[j + 1] == p[i]);
                    }
                }
            }
        }
    }
}

/// Setting the entry of a string keeps a mapping valid.
pub proof fn lemma_put_valid(m: Seq<(YamlView, YamlView)>, k: YamlView, v: YamlView)
    requires
        valid(YamlView::Mapping(m)),
        k is Str,
        valid(v),
    ensures
        valid(YamlView::Mapping(put(m, k, v))),
    decreases m.len(),
{
    let p = put(m, k, v);
    assert(valid(k));
    if m.len() == 0 {
    } else if m[0].0 == k {
        assert forall|i: int| 0 < i < p.len() implies #[trigger] p[i] == m[i] by {}
        assert(keys_differ(p));
    } else {
        let t = m.drop_first();
        let rest = put(t, k, v);
        assert forall|i: int| 0 <= i < t.len() implies valid((#[trigger] t[i]).0) && valid(
            t[i].1,
        ) by {
            assert(t[i] == m[i + 1]);
        }
        assert(keys_differ(t)) by {
            assert forall|i: int, j: int| 0 <= i < j < t.len() implies !clash(
                (#[trigger] t[i]).0,
                (#[trigger] t[j]).0,
            ) by {
                assert(t[i] == m[i + 1] && t[j] == m[j + 1]);
            }
        }
        assert(valid(YamlView::Mapping(t)));
        lemma_put_valid(t, k, v);
        lemma_put_keys(t, k, v);
        assert forall|i: int| 0 < i < p.len() implies #[trigger] p[i] == rest[i - 1] by {}
        assert forall|j: int| 0 < j < p.len() implies !clash(m[0].0, (#[trigger] p[j]).0) by {
            if rest[j - 1] != (k, v) {
                let q = choose|q: int| 0 <= q < t.len() && t[q] == rest[j - 1];
                assert(t[q] == m[q + 1]);
            }
        }
        assert(keys_differ(p)) by {
            assert forall|i: int, j: int| 0 <= i < j < p.len() implies !clash(
                (#[trigger] p[i]).0,
                (#[trigger] p[j]).0,
            ) by {
                if i > 0 {
                    assert(p[i] == rest[i - 1] && p[j] == rest[j - 1]);
                }
            }
        }
        assert forall|i: int| 0 <= i < p.len() implies valid((#[trigger] p[i]).0) && valid(
            p[i].1,
        ) by {
            if i > 0 {
                assert(p[i] == rest[i - 1]);
            } else {
                assert(p[0] == m[0]);
            }
        }
    }
}

/// An element of a valid sequence is valid.
pub proof fn lemma_element_valid(l: Seq<YamlView>, i: int)
    requires
        valid(YamlView::List(l)),
        0 <= i < l.len(),
    ensures
        valid(l[i]),
{
    let v = YamlView::List(l);
    assert(v is List);
    assert(v->List_0 == l);
    assert(forall|i: int|
            #![trigger l[i]]
            0 <= i < l.len() ==> valid(l[i]));
}

/// A value found in a valid mapping is valid.
pub proof fn lemma_lookup_valid(m: Seq<(YamlView, YamlView)>, k: YamlView)
    requires
        forall|i: int| 0 <= i < m.len() ==> valid((#[trigger] m[i]).0) && valid(m[i].1),
    ensures
        lookup(m, k) matches Some(v) ==> valid(v),
    decreases m.len(),
{
    if m.len() > 0 && m[0].0 != k {
        let t = m.drop_first();
        assert forall|i: int| 0 <= i < t.len() implies valid((#[trigger] t[i]).0) && valid(
            t[i].1,
        ) by {
            assert(t[i] == m[i + 1]);
        }
        lemma_lookup_valid(t, k);
    } else if m.len() > 0 {
        assert(valid(m[0].1));
    }
}

/// What stands below the tags after replacing it.
pub proof fn lemma_retagged(v: YamlView, inner: YamlView)
    requires
        !(inner is Tagged),
    ensures
        v.retagged(inner).untagged() == inner,
    decreases v,
{
    if let YamlView::Tagged(_, w) = v {
        lemma_retagged(*w, inner);
    }
}

/// The entry that was set stands among the entries.
pub proof fn lemma_put_contains(m: Seq<(YamlView, YamlView)>, k: YamlView, v: YamlView)
    ensures
        put(m, k, v).contains((k, v)),
    decreases m.len(),
{
    let p = put(m, k, v);
    if m.len() == 0 || m[0].0 == k {
        assert(p[0] == (k, v));
    } else {
        lemma_put_contains(m.drop_first(), k, v);
        let rest = put(m.drop_first(), k, v);
        let i = choose|i: int| 0 <= i < rest.len() && rest[i] == (k, v);
        assert(p[i + 1] == (k, v));
    }
}

/// A value is valid below its tags, and putting a valid one there keeps it so.
pub proof fn lemma_untagged_valid(v: YamlView, inner: YamlView)
    requires
        valid(v),
    ensures
        valid(v.untagged()),
        valid(inner) ==> valid(v.retagged(inner)),
        !(inner is Tagged) ==> v.retagged(inner).untagged() == inner,
        v.retagged(v.untagged()) == v,
    decreases v,
{
    match v {
        YamlView::Tagged(t, w) => {
            lemma_untagged_valid(*w, inner);
        },
        _ => {},
    }
}

// ── Access ──────────────────────────────────────────────────────────────────────────────────

impl Yaml {
    /// The string, where this is one below its tags.
    pub fn as_str(&self) -> (r: Option<&str>)
        ensures
            match r {
                Some(s) => self@.text() == Some(s@),
                None => self@.text() is None,
            },
        decreases self,
    {
        match self {
            Yaml::Str(s) => Some(s.as_str()),
            Yaml::Tagged(_, v) => v.as_str(),
            _ => None,
        }
    }

    /// The entries, where this is a mapping below its tags.
    pub fn as_mapping(&self) -> (r: Option<&Vec<(Yaml, Yaml)>>)
        ensures
            match r {
                Some(m) => self@.entries() == Some(map_view(m@)),
                None => self@.entries() is None,
            },
        decreases self,
    {
        match self {
            Yaml::Mapping(m) => Some(m),
            Yaml::Tagged(_, v) => v.as_mapping(),
            _ => None,
        }
    }

    /// The elements, where this is a sequence below its tags.
    pub fn as_sequence(&self) -> (r: Option<&Vec<Yaml>>)
        ensures
            match r {
                Some(l) => self@.elements() == Some(list_view(l@)),
                None => self@.elements() is None,
            },
        decreases self,
    {
        match self {
            Yaml::List(l) => Some(l),
            Yaml::Tagged(_, v) => v.as_sequence(),
            _ => None,
        }
    }
}

impl Yaml {
    /// A copy.
    pub fn copy(&self) -> (r: Yaml)
        ensures
            r@ == self@,
        decreases self, 1nat,
    {
        match self {
            Yaml::Str(s) => Yaml::Str(s.clone()),
            Yaml::Scalar(v) => Yaml::Scalar(clone_value(v)),
            Yaml::Tagged(t, v) => Yaml::Tagged(clone_tag(t), Box::new(v.copy())),
            Yaml::List(v) => {
                assert(decreases_to!(*self => (*self)->List_0));
                Yaml::List(copy_list(v))
            },
            Yaml::Mapping(v) => {
                assert(decreases_to!(*self => (*self)->Mapping_0));
                Yaml::Mapping(copy_map(v))
            },
        }
    }
}

/// A copy of a list.
pub fn copy_list(v: &Vec<Yaml>) -> (r: Vec<Yaml>)
    ensures
        list_view(r@) == list_view(v@),
    decreases v, 0nat,
{
    let mut out: Vec<Yaml> = Vec::new();
    let mut i: usize = 0;
    while i < v.len()
        invariant
            i <= v.len(),
            list_view(out@) == list_view(v@.take(i as int)),
        decreases v.len() - i,
    {
        let ghost prev = out@;
        assert(decreases_to!(*v => v@));
        assert(decreases_to!(v@ => v@[i as int]));
        out.push(v[i].copy());
        assert(out@.drop_last() == prev);
        assert(v@.take(i + 1).drop_last() == v@.take(i as int));
        i = i + 1;
    }
    assert(v@.take(v@.len() as int) == v@);
    out
}

/// A copy of the entries of a mapping.
pub fn copy_map(v: &Vec<(Yaml, Yaml)>) -> (r: Vec<(Yaml, Yaml)>)
    ensures
        map_view(r@) == map_view(v@),
    decreases v, 0nat,
{
    let mut out: Vec<(Yaml, Yaml)> = Vec::new();
    let mut i: usize = 0;
    while i < v.len()
        invariant
            i <= v.len(),
            map_view(out@) == map_view(v@.take(i as int)),
        decreases v.len() - i,
    {
        let ghost prev = out@;
        assert(decreases_to!(*v => v@));
        assert(decreases_to!(v@ => v@[i as int]));
        assert(decreases_to!(v@[i as int] => v@[i as int].0));
        assert(decreases_to!(v@[i as int] => v@[i as int].1));
        out.push((v[i].0.copy(), v[i].1.copy()));
        assert(out@.drop_last() == prev);
        assert(v@.take(i + 1).drop_last() == v@.take(i as int));
        i = i + 1;
    }
    assert(v@.take(v@.len() as int) == v@);
    out
}

/// The value with what stands below its tags replaced.
pub fn retag(y: &Yaml, inner: Yaml) -> (r: Yaml)
    ensures
        r@ == y@.retagged(inner@),
    decreases y,
{
    match y {
        Yaml::Tagged(t, v) => Yaml::Tagged(clone_tag(t), Box::new(retag(v, inner))),
        _ => inner,
    }
}

/// The position of the first entry whose key is the string `name`.
pub fn entry_position(m: &Vec<(Yaml, Yaml)>, name: &str) -> (r: Option<usize>)
    ensures
        match r {
            Some(i) => i < m.len() && lookup(map_view(m@), key(name@)) == Some(m@[i as int].1@)
                && map_view(m@)[i as int].0 == key(name@) && (forall|k: int|
                0 <= k < i ==> (#[trigger] map_view(m@)[k]).0 != key(name@)),
            None => lookup(map_view(m@), key(name@)) is None && (forall|k: int|
                0 <= k < m.len() ==> (#[trigger] map_view(m@)[k]).0 != key(name@)),
        },
{
    let ghost all = map_view(m@);
    proof {
        lemma_map_view(m@);
        assert(all.subrange(0, all.len() as int) == all);
    }
    let mut i: usize = 0;
    while i < m.len()
        invariant
            all == map_view(m@),
            all.len() == m.len(),
            forall|k: int| 0 <= k < m.len() ==> #[trigger] all[k] == (m@[k].0@, m@[k].1@),
            i <= m.len(),
            forall|k: int| 0 <= k < i ==> (#[trigger] all[k]).0 != key(name@),
            lookup(all, key(name@)) == lookup(
                all.subrange(i as int, all.len() as int),
                key(name@),
            ),
        decreases m.len() - i,
    {
        let ghost t = all.subrange(i as int, all.len() as int);
        assert(t[0] == all[i as int]);
        assert(t.drop_first() == all.subrange(i + 1, all.len() as int));
        if let Yaml::Str(s) = &m[i].0 {
            if same(s.as_str(), name) {
                return Some(i);
            }
        }
        i = i + 1;
    }
    None
}

/// The value of the first entry whose key is the string `name`.
pub fn get<'a>(m: &'a Vec<(Yaml, Yaml)>, name: &str) -> (r: Option<&'a Yaml>)
    ensures
        match r {
            Some(v) => lookup(map_view(m@), key(name@)) == Some(v@),
            None => lookup(map_view(m@), key(name@)) is None,
        },
{
    match entry_position(m, name) {
        Some(i) => Some(&m[i].1),
        None => None,
    }
}

/// The string that a mapping has under `name`.
pub fn get_string(m: &Vec<(Yaml, Yaml)>, name: &str) -> (r: Option<String>)
    ensures
        match r {
            Some(s) => string_field(map_view(m@), name@) == Some(s@),
            None => string_field(map_view(m@), name@) is None,
        },
{
    match get(m, name) {
        Some(v) => match v.as_str() {
            Some(s) => Some(s.to_owned()),
            None => None,
        },
        None => None,
    }
}

proof fn lemma_put_at(m: Seq<(YamlView, YamlView)>, k: YamlView, v: YamlView, i: int)
    requires
        0 <= i < m.len(),
        m[i].0 == k,
        forall|j: int| 0 <= j < i ==> (#[trigger] m[j]).0 != k,
    ensures
        put(m, k, v) == m.update(i, (k, v)),
    decreases m.len(),
{
    if i == 0 {
        assert(m.update(0, (k, v)) =~= seq![(k, v)] + m.drop_first());
    } else {
        assert(m[0].0 != k);
        let t = m.drop_first();
        assert forall|j: int| 0 <= j < i - 1 implies (#[trigger] t[j]).0 != k by {
            assert(t[j] == m[j + 1]);
        }
        lemma_put_at(t, k, v, i - 1);
        assert(m.update(i, (k, v)) =~= seq![m[0]] + t.update(i - 1, (k, v)));
    }
}

proof fn lemma_put_new(m: Seq<(YamlView, YamlView)>, k: YamlView, v: YamlView)
    requires
        forall|j: int| 0 <= j < m.len() ==> (#[trigger] m[j]).0 != k,
    ensures
        put(m, k, v) == m.push((k, v)),
    decreases m.len(),
{
    if m.len() > 0 {
        assert(m[0].0 != k);
        let t = m.drop_first();
        assert forall|j: int| 0 <= j < t.len() implies (#[trigger] t[j]).0 != k by {
            assert(t[j] == m[j + 1]);
        }
        lemma_put_new(t, k, v);
        assert(m.push((k, v)) =~= seq![m[0]] + t.push((k, v)));
    } else {
        assert(m.push((k, v)) =~= seq![(k, v)]);
    }
}

/// Sets the entry whose key is the string `name`, or adds it at the end.
pub fn set_entry(m: &mut Vec<(Yaml, Yaml)>, name: &str, value: Yaml)
    ensures
        map_view(final(m)@) == put(map_view(old(m)@), key(name@), value@),
{
    let ghost all = m@;
    proof {
        lemma_map_view(all);
    }
    match entry_position(m, name) {
        Some(i) => {
            let k = Yaml::Str(name.to_owned());
            assert(k@ == key(name@));
            m.set(i, (k, value));
            proof {
                lemma_map_view(m@);
                lemma_put_at(map_view(all), key(name@), value@, i as int);
                assert(map_view(m@) =~= map_view(all).update(i as int, (key(name@), value@)));
            }
        },
        None => {
            let k = Yaml::Str(name.to_owned());
            assert(k@ == key(name@));
            m.push((k, value));
            proof {
                lemma_put_new(map_view(all), key(name@), value@);
                assert(m@.drop_last() == all);
                assert(m@.last() == (k, value));
                assert(map_view(m@) == map_view(all).push((key(name@), value@)));
            }
        },
    }
}

/// Adds the entry whose key is the string `name` where there is none.
pub fn set_entry_if_missing(m: &mut Vec<(Yaml, Yaml)>, name: &str, value: Yaml)
    ensures
        map_view(final(m)@) == match lookup(map_view(old(m)@), key(name@)) {
            Some(_) => map_view(old(m)@),
            None => put(map_view(old(m)@), key(name@), value@),
        },
{
    if get(m, name).is_none() {
        set_entry(m, name, value);
    }
}

// ── Values of `serde_yaml_ng` ───────────────────────────────────────────────────────────────

/// The value type of `serde_yaml_ng`.
#[verifier::external_type_specification]
#[verifier::external_body]
pub struct ExValue(serde_yaml_ng::Value);

/// The tag type of `serde_yaml_ng`.
#[verifier::external_type_specification]
#[verifier::external_body]
pub struct ExTag(serde_yaml_ng::value::Tag);

/// What a `serde_yaml_ng` value holds: its variant with the same contents.
pub uninterp spec fn value_holds(v: serde_yaml_ng::Value) -> YamlView;

/// What `serde_yaml_ng` reads from a text, or the message with which it fails.
pub uninterp spec fn yaml_document(text: Seq<char>) -> Result<YamlView, Seq<char>>;

/// The text that `serde_yaml_ng` writes for a value, or the message with which it fails.
pub uninterp spec fn yaml_text(v: YamlView) -> Result<Seq<char>, Seq<char>>;

/// One level of a `serde_yaml_ng` value.
enum Node<'a> {
    Str(&'a str),
    List(&'a Vec<serde_yaml_ng::Value>),
    Mapping(Vec<(&'a serde_yaml_ng::Value, &'a serde_yaml_ng::Value)>),
    Tagged(serde_yaml_ng::value::Tag, &'a serde_yaml_ng::Value),
    Scalar(serde_yaml_ng::Value),
}

spec fn values_hold(v: Seq<serde_yaml_ng::Value>) -> Seq<YamlView> {
    v.map_values(|x: serde_yaml_ng::Value| value_holds(x))
}

spec fn pairs_hold(v: Seq<(&serde_yaml_ng::Value, &serde_yaml_ng::Value)>) -> Seq<
    (YamlView, YamlView),
> {
    v.map_values(
        |x: (&serde_yaml_ng::Value, &serde_yaml_ng::Value)| (value_holds(*x.0), value_holds(*x.1)),
    )
}

spec fn owned_pairs_hold(v: Seq<(serde_yaml_ng::Value, serde_yaml_ng::Value)>) -> Seq<
    (YamlView, YamlView),
> {
    v.map_values(
        |x: (serde_yaml_ng::Value, serde_yaml_ng::Value)| (value_holds(x.0), value_holds(x.1)),
    )
}

spec fn node_view(n: Node<'_>) -> YamlView {
    match n {
        Node::Str(s) => YamlView::Str(s@),
        Node::List(l) => YamlView::List(values_hold(l@)),
        Node::Mapping(m) => YamlView::Mapping(pairs_hold(m@)),
        Node::Tagged(t, v) => YamlView::Tagged(t, Box::new(value_holds(*v))),
        Node::Scalar(v) => YamlView::Scalar(v),
    }
}

/// Takes a `serde_yaml_ng::Value` apart by its variant: the same string, elements, entries in
/// order, tag and value, or scalar. No two keys of a mapping are equal by `serde_yaml_ng`'s own
/// comparison, under which a string equals the same string alone.
#[verifier::external_body]
fn open_value<'a>(v: &'a serde_yaml_ng::Value) -> (n: Node<'a>)
    ensures
        node_view(n) == value_holds(*v),
        n matches Node::Mapping(m) ==> forall|i: int, j: int|
            0 <= i < j < m@.len() ==> {
                let a = value_holds(*(#[trigger] m@[i]).0);
                let b = value_holds(*(#[trigger] m@[j]).0);
                if a is Str || b is Str {
                    a != b
                } else {
                    !same_key(a, b)
                }
            },
        n matches Node::Scalar(s) ==> s == *v,
{
    match v {
        serde_yaml_ng::Value::String(s) => Node::Str(s.as_str()),
        serde_yaml_ng::Value::Sequence(l) => Node::List(l),
        serde_yaml_ng::Value::Mapping(m) => Node::Mapping(m.iter().collect()),
        serde_yaml_ng::Value::Tagged(t) => Node::Tagged(t.tag.clone(), &t.value),
        scalar => Node::Scalar(scalar.clone()),
    }
}

/// The parts of a `serde_yaml_ng` value that is to be built.
enum Parts {
    Str(String),
    List(Vec<serde_yaml_ng::Value>),
    Mapping(Vec<(serde_yaml_ng::Value, serde_yaml_ng::Value)>),
    Tagged(serde_yaml_ng::value::Tag, serde_yaml_ng::Value),
}

spec fn parts_view(p: Parts) -> YamlView {
    match p {
        Parts::Str(s) => YamlView::Str(s@),
        Parts::List(l) => YamlView::List(values_hold(l@)),
        Parts::Mapping(m) => YamlView::Mapping(owned_pairs_hold(m@)),
        Parts::Tagged(t, v) => YamlView::Tagged(t, Box::new(value_holds(v))),
    }
}

/// Builds a `serde_yaml_ng::Value` of the given variant with the given contents; a mapping keeps
/// the order of its entries, whose keys do not clash.
#[verifier::external_body]
fn build_value(p: Parts) -> (v: serde_yaml_ng::Value)
    requires
        p matches Parts::Mapping(m) ==> keys_differ(owned_pairs_hold(m@)),
    ensures
        value_holds(v) == parts_view(p),
{
    match p {
        Parts::Str(s) => serde_yaml_ng::Value::String(s),
        Parts::List(l) => serde_yaml_ng::Value::Sequence(l),
        Parts::Mapping(m) => serde_yaml_ng::Value::Mapping(m.into_iter().collect()),
        Parts::Tagged(tag, value) => serde_yaml_ng::Value::Tagged(
            Box::new(serde_yaml_ng::value::TaggedValue { tag, value }),
        ),
    }
}

/// `serde_yaml_ng::Value::clone` makes the same value.
#[verifier::external_body]
fn clone_value(v: &serde_yaml_ng::Value) -> (r: serde_yaml_ng::Value)
    ensures
        r == *v,
{
    v.clone()
}

/// `serde_yaml_ng::value::Tag::clone` makes the same tag.
#[verifier::external_body]
fn clone_tag(t: &serde_yaml_ng::value::Tag) -> (r: serde_yaml_ng::value::Tag)
    ensures
        r == *t,
{
    t.clone()
}

/// `serde_yaml_ng::from_str::<serde_yaml_ng::Value>`: the value that the text stands for, or the
/// message of the error.
#[verifier::external_body]
fn parse_value(text: &str) -> (r: Result<serde_yaml_ng::Value, String>)
    ensures
        match r {
            Ok(v) => yaml_document(text@) == Ok::<YamlView, Seq<char>>(value_holds(v)),
            Err(e) => yaml_document(text@) == Err::<YamlView, Seq<char>>(e@),
        },
{
    serde_yaml_ng::from_str::<serde_yaml_ng::Value>(text).map_err(|e| e.to_string())
}

/// `serde_yaml_ng::to_string`: the text for the value, or the message of the error.
#[verifier::external_body]
fn value_text(v: &serde_yaml_ng::Value) -> (r: Result<String, String>)
    ensures
        match r {
            Ok(s) => yaml_text(value_holds(*v)) == Ok::<Seq<char>, Seq<char>>(s@),
            Err(e) => yaml_text(value_holds(*v)) == Err::<Seq<char>, Seq<char>>(e@),
        },
{
    serde_yaml_ng::to_string(v).map_err(|e| e.to_string())
}

/// The value with the contents of a `serde_yaml_ng` value.
fn from_value(v: &serde_yaml_ng::Value) -> (r: Yaml)
    ensures
        r@ == value_holds(*v),
        valid(r@),
    decreases value_holds(*v),
{
    match open_value(v) {
        Node::Str(s) => Yaml::Str(s.to_owned()),
        Node::Scalar(s) => Yaml::Scalar(s),
        Node::Tagged(t, w) => {
            assert(value_holds(*v)->Tagged_1 == Box::new(value_holds(*w)));
            Yaml::Tagged(t, Box::new(from_value(w)))
        },
        Node::List(items) => {
            let mut out: Vec<Yaml> = Vec::new();
            let mut i: usize = 0;
            while i < items.len()
                invariant
                    value_holds(*v) == YamlView::List(values_hold(items@)),
                    i <= items.len(),
                    out.len() == i,
                    forall|k: int|
                        0 <= k < i ==> (#[trigger] out@[k])@ == value_holds(items@[k]) && valid(
                            out@[k]@,
                        ),
                decreases items.len() - i,
            {
                assert(value_holds(*v)->List_0[i as int] == value_holds(items@[i as int]));
                out.push(from_value(&items[i]));
                i = i + 1;
            }
            proof {
                lemma_list_view(out@);
                assert(list_view(out@) == values_hold(items@));
                assert forall|k: int| 0 <= k < out.len() implies valid(
                    #[trigger] list_view(out@)[k],
                ) by {
                    assert(valid(out@[k]@));
                }
            }
            Yaml::List(out)
        },
        Node::Mapping(items) => {
            let mut out: Vec<(Yaml, Yaml)> = Vec::new();
            let mut i: usize = 0;
            while i < items.len()
                invariant
                    value_holds(*v) == YamlView::Mapping(pairs_hold(items@)),
                    i <= items.len(),
                    out.len() == i,
                    forall|k: int|
                        0 <= k < i ==> (#[trigger] out@[k]).0@ == value_holds(*items@[k].0)
                            && out@[k].1@ == value_holds(*items@[k].1) && valid(out@[k].0@)
                            && valid(out@[k].1@),
                decreases items.len() - i,
            {
                let ghost pair = value_holds(*v)->Mapping_0[i as int];
                assert(pair == (value_holds(*items@[i as int].0), value_holds(
                    *items@[i as int].1,
                )));
                assert(decreases_to!(value_holds(*v) => value_holds(*v)->Mapping_0));
                assert(decreases_to!(value_holds(*v)->Mapping_0 => value_holds(*v)->Mapping_0[i as int]));
                assert(decreases_to!(pair => pair.0));
                assert(decreases_to!(pair => pair.1));
                let item = items[i];
                out.push((from_value(item.0), from_value(item.1)));
                i = i + 1;
            }
            proof {
                lemma_map_view(out@);
                assert(map_view(out@) == pairs_hold(items@));
                assert forall|k: int| 0 <= k < out.len() implies valid(
                    (#[trigger] map_view(out@)[k]).0,
                ) && valid(map_view(out@)[k].1) by {
                    assert(valid(out@[k].0@));
                }
            }
            Yaml::Mapping(out)
        },
    }
}

/// The `serde_yaml_ng` value with the same contents.
fn to_value(y: &Yaml) -> (r: serde_yaml_ng::Value)
    requires
        valid(y@),
    ensures
        value_holds(r) == y@,
    decreases y,
{
    match y {
        Yaml::Str(s) => build_value(Parts::Str(s.clone())),
        Yaml::Scalar(v) => clone_value(v),
        Yaml::Tagged(t, v) => build_value(Parts::Tagged(clone_tag(t), to_value(v))),
        Yaml::List(items) => {
            proof {
                lemma_list_view(items@);
            }
            let mut out: Vec<serde_yaml_ng::Value> = Vec::new();
            let mut i: usize = 0;
            while i < items.len()
                invariant
                    *y == Yaml::List(*items),
                    valid(y@),
                    list_view(items@).len() == items.len(),
                    forall|k: int|
                        0 <= k < items.len() ==> #[trigger] list_view(items@)[k] == items@[k]@,
                    i <= items.len(),
                    out.len() == i,
                    forall|k: int| 0 <= k < i ==> value_holds(#[trigger] out@[k]) == items@[k]@,
                decreases items.len() - i,
            {
                assert(decreases_to!(*y => (*y)->List_0));
                assert(decreases_to!(*items => items@));
                assert(decreases_to!(items@ => items@[i as int]));
                assert(y@ == YamlView::List(list_view(items@)));
                proof {
                    lemma_element_valid(list_view(items@), i as int);
                }
                out.push(to_value(&items[i]));
                i = i + 1;
            }
            assert(list_view(items@) == values_hold(out@));
            build_value(Parts::List(out))
        },
        Yaml::Mapping(items) => {
            proof {
                lemma_map_view(items@);
            }
            let mut out: Vec<(serde_yaml_ng::Value, serde_yaml_ng::Value)> = Vec::new();
            let mut i: usize = 0;
            while i < items.len()
                invariant
                    *y == Yaml::Mapping(*items),
                    valid(y@),
                    map_view(items@).len() == items.len(),
                    forall|k: int|
                        0 <= k < items.len() ==> #[trigger] map_view(items@)[k] == (
                            items@[k].0@,
                            items@[k].1@,
                        ),
                    i <= items.len(),
                    out.len() == i,
                    forall|k: int|
                        0 <= k < i ==> value_holds((#[trigger] out@[k]).0) == items@[k].0@
                            && value_holds(out@[k].1) == items@[k].1@,
                decreases items.len() - i,
            {
                assert(decreases_to!(*y => (*y)->Mapping_0));
                assert(decreases_to!(*items => items@));
                assert(decreases_to!(items@ => items@[i as int]));
                assert(decreases_to!(items@[i as int] => items@[i as int].0));
                assert(decreases_to!(items@[i as int] => items@[i as int].1));
                assert(valid(map_view(items@)[i as int].0));
                out.push((to_value(&items[i].0), to_value(&items[i].1)));
                i = i + 1;
            }
            assert(map_view(items@) == owned_pairs_hold(out@));
            build_value(Parts::Mapping(out))
        },
    }
}

/// The value that a text stands for, or the message with which reading it fails.
pub fn parse(text: &str) -> (r: Result<Yaml, String>)
    ensures
        match r {
            Ok(y) => yaml_document(text@) == Ok::<YamlView, Seq<char>>(y@) && valid(y@),
            Err(e) => yaml_document(text@) == Err::<YamlView, Seq<char>>(e@),
        },
{
    match parse_value(text) {
        Ok(v) => Ok(from_value(&v)),
        Err(e) => Err(e),
    }
}

/// The text of a value, or the message with which writing it fails.
pub fn print(y: &Yaml) -> (r: Result<String, String>)
    requires
        valid(y@),
    ensures
        match r {
            Ok(s) => yaml_text(y@) == Ok::<Seq<char>, Seq<char>>(s@),
            Err(e) => yaml_text(y@) == Err::<Seq<char>, Seq<char>>(e@),
        },
{
    let v = to_value(y);
    value_text(&v)
}

} // verus!
