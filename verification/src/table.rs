//! A table of values by name, and the order of names.

use vstd::prelude::*;
use crate::text::{before, lex_lt, same, strs};

verus! {

/// Values by name; a name stands for at most one value.
pub struct Table<V> {
    entries: Vec<(String, V)>,
}

/// Whether `p` lists the numbers below `n`, each once.
pub open spec fn is_permutation(p: Seq<int>, n: int) -> bool {
    &&& p.len() == n
    &&& p.no_duplicates()
    &&& forall|i: int| 0 <= i < n ==> 0 <= #[trigger] p[i] < n
}

/// Whether each text stands strictly before every later one.
pub open spec fn increasing(names: Seq<Seq<char>>) -> bool {
    forall|i: int, j: int|
        0 <= i < j < names.len() ==> lex_lt(#[trigger] names[i], #[trigger] names[j])
}

/// The entry with the name `k` in a list of entries.
spec fn entry_at<V>(entries: Seq<(String, V)>, k: Seq<char>, i: int) -> bool {
    0 <= i < entries.len() && entries[i].0@ == k
}

impl<V> Table<V> {
    #[verifier::type_invariant]
    spec fn names_distinct(&self) -> bool {
        forall|i: int, j: int|
            0 <= i < j < self.entries@.len() ==> (#[trigger] self.entries@[i]).0@ != (
            #[trigger] self.entries@[j]).0@
    }

    spec fn names(&self) -> Seq<Seq<char>> {
        self.entries@.map_values(|e: (String, V)| e.0@)
    }

    /// The value of each name.
    pub closed spec fn view(&self) -> Map<Seq<char>, V> {
        Map::new(
            |k: Seq<char>| exists|i: int| entry_at(self.entries@, k, i),
            |k: Seq<char>| self.entries@[choose|i: int| entry_at(self.entries@, k, i)].1,
        )
    }

    /// A table without entries.
    pub fn new() -> (r: Table<V>)
        ensures
            r@ == Map::<Seq<char>, V>::empty(),
    {
        let r = Table { entries: Vec::new() };
        assert(r@ =~= Map::<Seq<char>, V>::empty());
        r
    }

    proof fn lemma_entry(&self, i: int)
        requires
            self.names_distinct(),
            0 <= i < self.entries@.len(),
        ensures
            self@.contains_key(self.entries@[i].0@),
            self@[self.entries@[i].0@] == self.entries@[i].1,
    {
        let k = self.entries@[i].0@;
        assert(entry_at(self.entries@, k, i));
        let j = choose|j: int| entry_at(self.entries@, k, j);
        assert(i == j);
    }

    /// The position of the entry named `key`.
    fn position(&self, key: &str) -> (r: Option<usize>)
        ensures
            match r {
                Some(i) => i < self.entries@.len() && self.entries@[i as int].0@ == key@
                    && self@.contains_key(key@) && self@[key@] == self.entries@[i as int].1,
                None => !self@.contains_key(key@) && forall|i: int|
                    0 <= i < self.entries@.len() ==> (#[trigger] self.entries@[i]).0@ != key@,
            },
    {
        proof {
            use_type_invariant(self);
        }
        let mut i: usize = 0;
        while i < self.entries.len()
            invariant
                self.names_distinct(),
                i <= self.entries.len(),
                forall|k: int| 0 <= k < i ==> (#[trigger] self.entries@[k]).0@ != key@,
            decreases self.entries.len() - i,
        {
            if same(self.entries[i].0.as_str(), key) {
                proof {
                    self.lemma_entry(i as int);
                }
                return Some(i);
            }
            i = i + 1;
        }
        assert(!self@.contains_key(key@)) by {
            if exists|i: int| entry_at(self.entries@, key@, i) {
                let j = choose|j: int| entry_at(self.entries@, key@, j);
                assert(self.entries@[j].0@ == key@);
            }
        }
        None
    }

    /// The value named `key`.
    pub fn get(&self, key: &str) -> (r: Option<&V>)
        ensures
            match r {
                Some(v) => self@.contains_key(key@) && self@[key@] == *v,
                None => !self@.contains_key(key@),
            },
    {
        match self.position(key) {
            Some(i) => Some(&self.entries[i].1),
            None => None,
        }
    }

    /// Whether there is a value named `key`.
    pub fn contains_key(&self, key: &str) -> (r: bool)
        ensures
            r == self@.contains_key(key@),
    {
        self.position(key).is_some()
    }

    /// Sets the value named `key` and hands out the one it replaces.
    pub fn insert(&mut self, key: String, value: V) -> (r: Option<V>)
        ensures
            final(self)@ == old(self)@.insert(key@, value),
            match r {
                Some(v) => old(self)@.contains_key(key@) && old(self)@[key@] == v,
                None => !old(self)@.contains_key(key@),
            },
    {
        let removed = self.remove(key.as_str());
        let ghost mid = self@;
        let ghost before_push = self.entries@;
        proof {
            use_type_invariant(&*self);
        }
        let ghost k = key@;
        assert(!mid.contains_key(k));
        assert forall|i: int| 0 <= i < before_push.len() implies (#[trigger] before_push[i]).0@
            != k by {
            if before_push[i].0@ == k {
                self.lemma_entry(i);
            }
        }
        let mut entries: Vec<(String, V)> = Vec::new();
        core::mem::swap(&mut self.entries, &mut entries);
        entries.push((key, value));
        self.entries = entries;
        proof {
            assert forall|q: Seq<char>| self@.contains_key(q) == #[trigger] mid.insert(
                k,
                value,
            ).contains_key(q) by {
                if q == k {
                    assert(entry_at(self.entries@, k, before_push.len() as int));
                } else {
                    if exists|i: int| entry_at(self.entries@, q, i) {
                        let i = choose|i: int| entry_at(self.entries@, q, i);
                        assert(entry_at(before_push, q, i));
                    }
                    if exists|i: int| entry_at(before_push, q, i) {
                        let i = choose|i: int| entry_at(before_push, q, i);
                        assert(entry_at(self.entries@, q, i));
                    }
                }
            }
            assert forall|q: Seq<char>| #[trigger] self@.contains_key(q) implies self@[q]
                == mid.insert(k, value)[q] by {
                let i = choose|i: int| entry_at(self.entries@, q, i);
                self.lemma_entry(i);
                if q != k {
                    assert(entry_at(before_push, q, i));
                    let j = choose|j: int| entry_at(before_push, q, j);
                    assert(self.entries@[i].0@ == self.entries@[j].0@);
                    assert(i == j);
                }
            }
            assert(self@ =~= mid.insert(k, value));
            assert(mid.insert(k, value) =~= old(self)@.insert(k, value));
        }
        removed
    }

    /// Removes the value named `key` and hands it out.
    pub fn remove(&mut self, key: &str) -> (r: Option<V>)
        ensures
            final(self)@ == old(self)@.remove(key@),
            match r {
                Some(v) => old(self)@.contains_key(key@) && old(self)@[key@] == v,
                None => !old(self)@.contains_key(key@),
            },
    {
        match self.position(key) {
            Some(p) => {
                proof {
                    use_type_invariant(&*self);
                }
                let ghost all = self.entries@;
                let mut entries: Vec<(String, V)> = Vec::new();
                core::mem::swap(&mut self.entries, &mut entries);
                let e = entries.remove(p);
                self.entries = entries;
                proof {
                    let now = self.entries@;
                    assert(now == all.remove(p as int));
                    assert forall|q: Seq<char>| self@.contains_key(q) == #[trigger] old(
                        self,
                    )@.remove(key@).contains_key(q) by {
                        if exists|i: int| entry_at(now, q, i) {
                            let i = choose|i: int| entry_at(now, q, i);
                            let j = if i < p {
                                i
                            } else {
                                i + 1
                            };
                            assert(entry_at(all, q, j));
                            assert(all[j].0@ != all[p as int].0@);
                        }
                        if q != key@ && exists|j: int| entry_at(all, q, j) {
                            let j = choose|j: int| entry_at(all, q, j);
                            let i = if j < p {
                                j
                            } else {
                                j - 1
                            };
                            assert(entry_at(now, q, i));
                        }
                    }
                    assert forall|q: Seq<char>| #[trigger] self@.contains_key(q) implies self@[q]
                        == old(self)@.remove(key@)[q] by {
                        let i = choose|i: int| entry_at(now, q, i);
                        self.lemma_entry(i);
                        let j = if i < p {
                            i
                        } else {
                            i + 1
                        };
                        assert(all[j] == now[i]);
                        old(self).lemma_entry(j);
                    }
                    assert(self@ =~= old(self)@.remove(key@));
                }
                Some(e.1)
            },
            None => {
                assert(self@.remove(key@) =~= self@);
                None
            },
        }
    }

    /// The number of entries.
    pub fn len(&self) -> (r: usize)
        ensures
            self@.dom().finite(),
            r == self@.dom().len(),
    {
        proof {
            use_type_invariant(self);
            self.lemma_names();
            self.names().unique_seq_to_set();
        }
        self.entries.len()
    }

    proof fn lemma_names(&self)
        requires
            self.names_distinct(),
        ensures
            self.names().no_duplicates(),
            self.names().to_set() == self@.dom(),
            self.names().len() == self.entries@.len(),
    {
        assert forall|k: Seq<char>| self.names().to_set().contains(k) == #[trigger] self@.dom().contains(
            k,
        ) by {
            if self.names().contains(k) {
                let i = choose|i: int| 0 <= i < self.names().len() && self.names()[i] == k;
                assert(entry_at(self.entries@, k, i));
            }
            if exists|i: int| entry_at(self.entries@, k, i) {
                let i = choose|i: int| entry_at(self.entries@, k, i);
                assert(self.names()[i] == k);
            }
        }
        assert(self.names().to_set() =~= self@.dom());
    }

    /// Every name once, in no particular order.
    pub fn keys(&self) -> (r: Vec<String>)
        ensures
            strs(r@).no_duplicates(),
            strs(r@).to_set() == self@.dom(),
    {
        proof {
            use_type_invariant(self);
            self.lemma_names();
        }
        let mut out: Vec<String> = Vec::new();
        let mut i: usize = 0;
        while i < self.entries.len()
            invariant
                i <= self.entries.len(),
                strs(out@) == self.names().take(i as int),
                self.names().len() == self.entries@.len(),
            decreases self.entries.len() - i,
        {
            let ghost prev = out@;
            out.push(self.entries[i].0.clone());
            assert(strs(out@) == strs(prev).push(self.names()[i as int]));
            i = i + 1;
        }
        assert(self.names().take(self.names().len() as int) == self.names());
        out
    }

    /// Every name once, in increasing order.
    pub fn sorted_keys(&self) -> (r: Vec<String>)
        ensures
            increasing(strs(r@)),
            strs(r@).to_set() == self@.dom(),
            strs(r@) == in_order(self@.dom()),
    {
        let keys = self.keys();
        let r = sorted(&keys);
        proof {
            lemma_in_order(strs(r@));
        }
        r
    }
}

/// The texts of a set in increasing order.
pub open spec fn in_order(names: Set<Seq<char>>) -> Seq<Seq<char>> {
    choose|s: Seq<Seq<char>>| increasing(s) && s.to_set() == names
}

/// Texts in increasing order are the ordered texts of their set.
pub proof fn lemma_in_order(s: Seq<Seq<char>>)
    requires
        increasing(s),
    ensures
        in_order(s.to_set()) == s,
{
    lemma_increasing_unique(s, in_order(s.to_set()));
}

/// Some ordering of the texts of a finite set.
proof fn lemma_ordering(names: Set<Seq<char>>) -> (s: Seq<Seq<char>>)
    requires
        names.finite(),
    ensures
        increasing(s),
        s.to_set() == names,
    decreases names.len(),
{
    if names.len() == 0 {
        assert(Seq::<Seq<char>>::empty().to_set() =~= names);
        Seq::empty()
    } else {
        let x = names.choose();
        let t = lemma_ordering(names.remove(x));
        assert forall|i: int| 0 <= i < t.len() implies #[trigger] t[i] != x by {
            assert(t.to_set().contains(t[i]));
        }
        let k = lemma_place(t, x);
        let s = t.insert(k, x);
        assert forall|i: int, j: int| 0 <= i < j < s.len() implies lex_lt(
            #[trigger] s[i],
            #[trigger] s[j],
        ) by {
            if j < k {
                assert(s[i] == t[i] && s[j] == t[j]);
            } else if i > k {
                assert(s[i] == t[i - 1] && s[j] == t[j - 1]);
            } else if i == k {
                assert(s[j] == t[j - 1]);
            } else if j == k {
                assert(s[i] == t[i]);
            } else {
                assert(s[i] == t[i] && s[j] == t[j - 1]);
                if i < j - 1 {
                    assert(lex_lt(t[i], t[j - 1]));
                }
            }
        }
        assert forall|n: Seq<char>| s.to_set().contains(n) == #[trigger] names.contains(n) by {
            if s.contains(n) {
                let i = choose|i: int| 0 <= i < s.len() && s[i] == n;
                if i < k {
                    assert(t.to_set().contains(t[i]));
                } else if i > k {
                    assert(t.to_set().contains(t[i - 1]));
                }
            }
            if names.contains(n) {
                if n == x {
                    assert(s[k] == x);
                } else {
                    assert(t.to_set().contains(n));
                    let i = choose|i: int| 0 <= i < t.len() && t[i] == n;
                    assert(s[if i < k {
                        i
                    } else {
                        i + 1
                    }] == n);
                }
            }
        }
        assert(s.to_set() =~= names);
        s
    }
}

/// Where a new text stands among ordered ones.
proof fn lemma_place(t: Seq<Seq<char>>, x: Seq<char>) -> (k: int)
    requires
        increasing(t),
        forall|i: int| 0 <= i < t.len() ==> #[trigger] t[i] != x,
    ensures
        0 <= k <= t.len(),
        forall|i: int| 0 <= i < k ==> lex_lt(#[trigger] t[i], x),
        forall|i: int| k <= i < t.len() ==> lex_lt(x, #[trigger] t[i]),
    decreases t.len(),
{
    if t.len() == 0 {
        0
    } else {
        let last = t.last();
        lemma_lex_total(last, x);
        if lex_lt(last, x) {
            assert forall|i: int| 0 <= i < t.len() implies lex_lt(#[trigger] t[i], x) by {
                if i < t.len() - 1 {
                    lemma_lex_transitive(t[i], last, x);
                }
            }
            t.len() as int
        } else {
            let front = t.drop_last();
            let k = lemma_place(front, x);
            assert forall|i: int| 0 <= i < k implies lex_lt(#[trigger] t[i], x) by {
                assert(front[i] == t[i]);
            }
            assert forall|i: int| k <= i < t.len() implies lex_lt(x, #[trigger] t[i]) by {
                if i < front.len() {
                    assert(front[i] == t[i]);
                }
            }
            k
        }
    }
}

/// The ordered texts of a finite set increase, are those of the set, and are as many.
pub proof fn law_names_are_listed_in_order(names: Set<Seq<char>>)
    requires
        names.finite(),
    ensures
        increasing(in_order(names)),
        in_order(names).to_set() == names,
        in_order(names).len() == names.len(),
{
    let s = lemma_ordering(names);
    lemma_in_order(s);
    lemma_increasing_distinct(s);
    s.unique_seq_to_set();
}

/// Texts in increasing order are distinct.
pub proof fn lemma_increasing_distinct(s: Seq<Seq<char>>)
    requires
        increasing(s),
    ensures
        s.no_duplicates(),
{
    assert forall|i: int, j: int| 0 <= i < j < s.len() implies s[i] != s[j] by {
        lemma_lex_irreflexive(s[i]);
    }
}

proof fn lemma_increasing_unique(a: Seq<Seq<char>>, b: Seq<Seq<char>>)
    requires
        increasing(a),
        increasing(b),
        a.to_set() == b.to_set(),
    ensures
        a == b,
    decreases a.len(),
{
    lemma_increasing_distinct(a);
    lemma_increasing_distinct(b);
    a.unique_seq_to_set();
    b.unique_seq_to_set();
    assert(a.len() == b.len());
    if a.len() > 0 {
        let x = a.last();
        let y = b.last();
        assert(a.to_set().contains(x));
        assert(b.to_set().contains(y));
        assert(b.contains(x));
        assert(a.contains(y));
        let j = choose|j: int| 0 <= j < b.len() && b[j] == x;
        let i = choose|i: int| 0 <= i < a.len() && a[i] == y;
        if x != y {
            assert(lex_lt(b[j], b[b.len() - 1]));
            assert(lex_lt(a[i], a[a.len() - 1]));
            lemma_lex_transitive(x, y, x);
            lemma_lex_irreflexive(x);
        }
        let c = a.drop_last();
        let d = b.drop_last();
        assert forall|t: Seq<char>| c.to_set().contains(t) == #[trigger] d.to_set().contains(t) by {
            if c.contains(t) {
                let k = choose|k: int| 0 <= k < c.len() && c[k] == t;
                assert(a[k] == t);
                assert(a.to_set().contains(t));
                assert(b.contains(t));
                let m = choose|m: int| 0 <= m < b.len() && b[m] == t;
                assert(d[m] == t);
            }
            if d.contains(t) {
                let k = choose|k: int| 0 <= k < d.len() && d[k] == t;
                assert(b[k] == t);
                assert(b.to_set().contains(t));
                assert(a.contains(t));
                let m = choose|m: int| 0 <= m < a.len() && a[m] == t;
                assert(c[m] == t);
            }
        }
        assert(c.to_set() =~= d.to_set());
        lemma_increasing_unique(c, d);
        assert(a =~= c.push(x));
        assert(b =~= d.push(y));
    } else {
        assert(a =~= b);
    }
}

// ── Order ───────────────────────────────────────────────────────────────────────────────────

pub proof fn lemma_lex_irreflexive(a: Seq<char>)
    ensures
        !lex_lt(a, a),
    decreases a.len(),
{
    if a.len() > 0 {
        lemma_lex_irreflexive(a.drop_first());
    }
}

pub proof fn lemma_lex_transitive(a: Seq<char>, b: Seq<char>, c: Seq<char>)
    requires
        lex_lt(a, b),
        lex_lt(b, c),
    ensures
        lex_lt(a, c),
    decreases a.len(),
{
    if a.len() > 0 && a[0] == b[0] && b[0] == c[0] {
        lemma_lex_transitive(a.drop_first(), b.drop_first(), c.drop_first());
    }
}

pub proof fn lemma_lex_total(a: Seq<char>, b: Seq<char>)
    ensures
        a == b || lex_lt(a, b) || lex_lt(b, a),
    decreases a.len(),
{
    if a.len() == 0 {
        if b.len() == 0 {
            assert(a =~= b);
        }
    } else if b.len() > 0 && a[0] == b[0] {
        lemma_lex_total(a.drop_first(), b.drop_first());
        if a.drop_first() == b.drop_first() {
            assert(a =~= seq![a[0]] + a.drop_first());
            assert(b =~= seq![b[0]] + b.drop_first());
        }
    }
}

/// Whether `p` puts the texts in order, and equal ones by position.
pub open spec fn ranks_names(p: Seq<int>, names: Seq<Seq<char>>) -> bool {
    &&& is_permutation(p, names.len() as int)
    &&& forall|a: int, b: int|
        0 <= a < b < p.len() ==> names_in_order(names, #[trigger] p[a], #[trigger] p[b])
}

/// Whether position `i` comes before position `j`: by the text, and by the position where the
/// texts are equal.
pub open spec fn names_in_order(names: Seq<Seq<char>>, i: int, j: int) -> bool {
    lex_lt(names[i], names[j]) || (names[i] == names[j] && i < j)
}

/// The positions of the strings in the order of the strings, equal ones by position.
pub fn rank_names(names: &Vec<String>) -> (r: Vec<usize>)
    ensures
        ranks_names(r@.map_values(|i: usize| i as int), strs(names@)),
{
    let ghost all = strs(names@);
    let mut out: Vec<usize> = Vec::new();
    let mut k: usize = 0;
    while k < names.len()
        invariant
            all == strs(names@),
            k <= names.len(),
            out.len() == k,
            forall|i: int| 0 <= i < k ==> #[trigger] out@[i] < k,
            forall|a: int, b: int|
                0 <= a < b < k ==> names_in_order(
                    all,
                    #[trigger] out@[a] as int,
                    #[trigger] out@[b] as int,
                ),
        decreases names.len() - k,
    {
        let mut pos: usize = k;
        while pos > 0 && before(names[k].as_str(), names[out[pos - 1]].as_str())
            invariant
                all == strs(names@),
                k < names.len(),
                pos <= k == out.len(),
                forall|i: int| 0 <= i < k ==> #[trigger] out@[i] < k,
                forall|i: int|
                    pos <= i < k ==> lex_lt(all[k as int], all[#[trigger] out@[i] as int]),
            decreases pos,
        {
            pos = pos - 1;
        }
        let ghost prev = out@;
        out.insert(pos, k);
        proof {
            assert(out@ == prev.insert(pos as int, k));
            assert forall|i: int| 0 <= i < k + 1 implies #[trigger] out@[i] < k + 1 by {
                if i < pos {
                    assert(out@[i] == prev[i]);
                } else if i > pos {
                    assert(out@[i] == prev[i - 1]);
                }
            }
            if pos > 0 {
                lemma_lex_total(all[k as int], all[prev[pos - 1] as int]);
            }
            assert forall|a: int, b: int| 0 <= a < b < k + 1 implies names_in_order(
                all,
                #[trigger] out@[a] as int,
                #[trigger] out@[b] as int,
            ) by {
                let x = if a < pos {
                    a
                } else {
                    a - 1
                };
                let y = if b < pos {
                    b
                } else {
                    b - 1
                };
                if a == pos {
                    assert(out@[b] == prev[y]);
                } else if b == pos {
                    assert(out@[a] == prev[a]);
                    if a < pos - 1 {
                        let last = prev[pos - 1] as int;
                        assert(names_in_order(all, prev[a] as int, last));
                        if lex_lt(all[prev[a] as int], all[last]) && lex_lt(
                            all[last],
                            all[k as int],
                        ) {
                            lemma_lex_transitive(
                                all[prev[a] as int],
                                all[last],
                                all[k as int],
                            );
                        }
                    }
                } else {
                    assert(out@[a] == prev[x]);
                    assert(out@[b] == prev[y]);
                }
            }
        }
        k = k + 1;
    }
    proof {
        let p = out@.map_values(|i: usize| i as int);
        assert forall|a: int, b: int| 0 <= a < b < p.len() implies p[a] != p[b] by {
            lemma_lex_irreflexive(all[p[a]]);
            assert(names_in_order(all, out@[a] as int, out@[b] as int));
        }
        assert(p.no_duplicates());
        assert forall|a: int, b: int| 0 <= a < b < p.len() implies names_in_order(
            all,
            #[trigger] p[a],
            #[trigger] p[b],
        ) by {
            assert(names_in_order(all, out@[a] as int, out@[b] as int));
        }
    }
    out
}

/// The distinct strings in increasing order.
pub fn sorted(names: &Vec<String>) -> (r: Vec<String>)
    requires
        strs(names@).no_duplicates(),
    ensures
        increasing(strs(r@)),
        strs(r@).to_set() == strs(names@).to_set(),
        r.len() == names.len(),
{
    let ghost all = strs(names@);
    let order = rank_names(names);
    let ghost p = order@.map_values(|i: usize| i as int);
    let mut out: Vec<String> = Vec::new();
    let mut i: usize = 0;
    while i < order.len()
        invariant
            all == strs(names@),
            p == order@.map_values(|i: usize| i as int),
            ranks_names(p, all),
            i <= order.len(),
            out.len() == i,
            forall|k: int| 0 <= k < i ==> (#[trigger] out@[k])@ == all[p[k]],
        decreases order.len() - i,
    {
        assert(0 <= p[i as int] < all.len());
        out.push(names[order[i]].clone());
        i = i + 1;
    }
    proof {
        let res = strs(out@);
        assert(res =~= Seq::new(p.len(), |k: int| all[p[k]]));
        assert forall|a: int, b: int| 0 <= a < b < res.len() implies lex_lt(
            #[trigger] res[a],
            #[trigger] res[b],
        ) by {
            assert(names_in_order(all, p[a], p[b]));
            assert(p[a] != p[b]);
        }
        lemma_permutation_covers(p, all.len() as int);
        assert forall|s: Seq<char>| res.to_set().contains(s) == #[trigger] all.to_set().contains(s) by {
            if res.contains(s) {
                let k = choose|k: int| 0 <= k < res.len() && res[k] == s;
                assert(all[p[k]] == s);
            }
            if all.contains(s) {
                let j = choose|j: int| 0 <= j < all.len() && all[j] == s;
                assert(p.contains(j));
                let k = choose|k: int| 0 <= k < p.len() && p[k] == j;
                assert(res[k] == s);
            }
        }
        assert(res.to_set() =~= all.to_set());
    }
    out
}

/// A permutation of the numbers below `n` reaches each of them.
pub proof fn lemma_permutation_covers(p: Seq<int>, n: int)
    requires
        n >= 0,
        is_permutation(p, n),
    ensures
        forall|j: int| 0 <= j < n ==> p.contains(j),
{
    let s = p.to_set();
    let full = vstd::set_lib::set_int_range(0, n);
    p.unique_seq_to_set();
    vstd::set_lib::lemma_int_range(0, n);
    assert forall|x: int| s.contains(x) implies full.contains(x) by {
        assert(p.contains(x));
        let i = choose|i: int| 0 <= i < p.len() && p[i] == x;
        assert(0 <= p[i] < n);
    }
    vstd::set_lib::lemma_subset_equality(s, full);
    assert forall|j: int| 0 <= j < n implies p.contains(j) by {
        assert(full.contains(j));
        assert(s.contains(j));
    }
}

/// The characters of each value of a table.
pub open spec fn table_texts(m: Map<Seq<char>, String>) -> Map<Seq<char>, Seq<char>> {
    m.map_values(|s: String| s@)
}

} // verus!
