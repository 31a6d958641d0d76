//! The registry of skills: what is known, what is active, and what depends on what.

use vstd::prelude::*;
use crate::error::ReactError;
use crate::ids::{is_uuid_text, random_uuid};
use crate::lists::copy_strings;
use crate::paths::{parent, parent_of};
use crate::prompt_exec::{PromptContext, SkillSource, DEFAULT_CMD_TIMEOUT_MS};
use crate::skills::{
    entry_views, PolicyView, SkillContent, SkillDescriptor, SkillResourceEntry,
    SkillResourceKind, SkillSandboxPolicy,
};
use crate::table::{in_order, increasing, law_names_are_listed_in_order, Table};
use crate::text::{
    add_to, before, chars_of, concat, ends_with, find, find_pos, has_string, join, joined,
    is_white, lemma_find_from, lex_lt, no_strings, occurs_at, opt_str, same, starts_with, string_of,
    strip_leading,
    strs, trim, trim_start, trimmed, without_leading,
};

verus! {

/// What is told of a skill: its tools, and whether it adds instructions to the prompt.
pub struct SkillInfo {
    pub name: String,
    pub description: String,
    pub tool_names: Vec<String>,
    pub has_prompt_injection: bool,
}

/// What is told of a skill.
pub struct InfoView {
    pub name: Seq<char>,
    pub description: Seq<char>,
    pub tool_names: Seq<Seq<char>>,
    pub has_prompt_injection: bool,
}

impl View for SkillInfo {
    type V = InfoView;

    open spec fn view(&self) -> InfoView {
        InfoView {
            name: self.name@,
            description: self.description@,
            tool_names: strs(self.tool_names@),
            has_prompt_injection: self.has_prompt_injection,
        }
    }
}

impl SkillInfo {
    /// The same.
    pub fn copy(&self) -> (r: SkillInfo)
        ensures
            r@ == self@,
    {
        SkillInfo {
            name: self.name.clone(),
            description: self.description.clone(),
            tool_names: copy_strings(&self.tool_names),
            has_prompt_injection: self.has_prompt_injection,
        }
    }
}

/// What is told of a skill from a file: it brings no tools of its own, and its body goes to the
/// prompt.
pub open spec fn file_info(d: SkillDescriptor) -> InfoView {
    InfoView {
        name: d.name@,
        description: d.description@,
        tool_names: Seq::empty(),
        has_prompt_injection: true,
    }
}

fn info_of_file(d: &SkillDescriptor) -> (r: SkillInfo)
    ensures
        r@ == file_info(*d),
{
    let r = SkillInfo {
        name: d.name.clone(),
        description: d.description.clone(),
        tool_names: no_strings(),
        has_prompt_injection: true,
    };
    assert(r@.tool_names =~= Seq::<Seq<char>>::empty());
    r
}

/// Skills by name, and which of them are active.
pub struct SkillRegistry {
    descriptors: Table<SkillDescriptor>,
    legacy_instructions: Table<String>,
    activated: Table<()>,
    code_skills: Table<SkillInfo>,
    session_id: String,
    active_policies: Table<SkillSandboxPolicy>,
}

// ── Dependencies ────────────────────────────────────────────────────────────────────────────

/// The state of a walk through dependencies: what was found, and what was visited.
pub struct Walk {
    pub found: Seq<Seq<char>>,
    pub visited: Set<Seq<char>>,
}

/// The number of names that are not visited yet.
pub open spec fn unvisited(d: Map<Seq<char>, Seq<Seq<char>>>, visited: Set<Seq<char>>) -> nat {
    d.dom().difference(visited).len()
}

/// What more is visited leaves less to visit.
pub proof fn lemma_fewer_left(
    d: Map<Seq<char>, Seq<Seq<char>>>,
    a: Set<Seq<char>>,
    b: Set<Seq<char>>,
)
    requires
        d.dom().finite(),
        a.subset_of(b),
    ensures
        unvisited(d, b) <= unvisited(d, a),
        forall|n: Seq<char>|
            d.contains_key(n) && !a.contains(n) && b.contains(n) ==> unvisited(d, b) < unvisited(
                d,
                a,
            ),
{
    let x = d.dom().difference(a);
    let y = d.dom().difference(b);
    assert(y.subset_of(x));
    vstd::set_lib::lemma_len_subset(y, x);
    assert forall|n: Seq<char>|
        d.contains_key(n) && !a.contains(n) && b.contains(n) implies unvisited(d, b) < unvisited(
        d,
        a,
    ) by {
        assert(y.subset_of(x.remove(n)));
        vstd::set_lib::lemma_len_subset(y, x.remove(n));
    }
}

/// The walk after a name is visited: its dependencies are visited first, each in turn, and then
/// found.
pub open spec fn collected(
    d: Map<Seq<char>, Seq<Seq<char>>>,
    name: Seq<char>,
    w: Walk,
) -> Walk
    decreases unvisited(d, w.visited), 0nat,
    when d.dom().finite()
{
    if w.visited.contains(name) {
        w
    } else {
        let entered = Walk { found: w.found, visited: w.visited.insert(name) };
        if d.contains_key(name) {
            proof {
                lemma_fewer_left(d, w.visited, entered.visited);
            }
            collected_all(d, d[name], entered)
        } else {
            entered
        }
    }
}

/// The walk after a list of dependencies is visited and found.
pub open spec fn collected_all(
    d: Map<Seq<char>, Seq<Seq<char>>>,
    names: Seq<Seq<char>>,
    w: Walk,
) -> Walk
    decreases unvisited(d, w.visited), names.len() + 1,
    when d.dom().finite()
{
    if names.len() == 0 {
        w
    } else {
        let a = collected_all(d, names.drop_last(), w);
        if w.visited.subset_of(a.visited) {
            proof {
                lemma_fewer_left(d, w.visited, a.visited);
            }
            with_found(collected(d, names.last(), a), names.last())
        } else {
            a
        }
    }
}

/// The walk with a name found, unless it was found before.
pub open spec fn with_found(w: Walk, name: Seq<char>) -> Walk {
    if w.found.contains(name) {
        w
    } else {
        Walk { found: w.found.push(name), visited: w.visited }
    }
}

/// The dependencies of a name, direct and indirect, in the order in which they are found.
pub open spec fn dependency_tree(
    d: Map<Seq<char>, Seq<Seq<char>>>,
    name: Seq<char>,
) -> Seq<Seq<char>> {
    collected(d, name, Walk { found: Seq::empty(), visited: Set::empty() }).found
}

/// What holds of a walk `b` that goes on from `a`: nothing is forgotten, what is found was
/// visited, and the dependencies of everything visited since are found.
pub open spec fn continues(d: Map<Seq<char>, Seq<Seq<char>>>, a: Walk, b: Walk) -> bool {
    &&& a.visited.subset_of(b.visited)
    &&& forall|n: Seq<char>| #[trigger] a.found.contains(n) ==> b.found.contains(n)
    &&& a.found.no_duplicates() ==> b.found.no_duplicates()
    &&& (forall|n: Seq<char>| #[trigger] a.found.contains(n) ==> a.visited.contains(n)) ==> (
    forall|n: Seq<char>| #[trigger] b.found.contains(n) ==> b.visited.contains(n))
    &&& forall|n: Seq<char>, i: int|
        b.visited.contains(n) && !a.visited.contains(n) && d.contains_key(n) && 0 <= i < d[n].len()
            ==> b.found.contains(#[trigger] d[n][i])
}

proof fn lemma_collected(d: Map<Seq<char>, Seq<Seq<char>>>, name: Seq<char>, w: Walk)
    requires
        d.dom().finite(),
    ensures
        continues(d, w, collected(d, name, w)),
        collected(d, name, w).visited.contains(name),
    decreases unvisited(d, w.visited), 0nat,
{
    if !w.visited.contains(name) {
        let entered = Walk { found: w.found, visited: w.visited.insert(name) };
        if d.contains_key(name) {
            lemma_fewer_left(d, w.visited, entered.visited);
            lemma_collected_all(d, d[name], entered);
            let b = collected_all(d, d[name], entered);
            assert forall|n: Seq<char>, i: int|
                b.visited.contains(n) && !w.visited.contains(n) && d.contains_key(n) && 0 <= i
                    < d[n].len() implies b.found.contains(#[trigger] d[n][i]) by {
                if n == name {
                    assert(d[name].contains(d[name][i]));
                }
            }
        }
    }
}

proof fn lemma_collected_all(
    d: Map<Seq<char>, Seq<Seq<char>>>,
    names: Seq<Seq<char>>,
    w: Walk,
)
    requires
        d.dom().finite(),
    ensures
        continues(d, w, collected_all(d, names, w)),
        forall|n: Seq<char>| #[trigger]
            names.contains(n) ==> collected_all(d, names, w).found.contains(n),
    decreases unvisited(d, w.visited), names.len() + 1,
{
    if names.len() > 0 {
        let front = names.drop_last();
        let name = names.last();
        lemma_collected_all(d, front, w);
        let a = collected_all(d, front, w);
        lemma_fewer_left(d, w.visited, a.visited);
        lemma_collected(d, name, a);
        let b = collected(d, name, a);
        let c = with_found(b, name);
        if !b.found.contains(name) {
            assert forall|n: Seq<char>| #[trigger] b.found.contains(n) implies c.found.contains(
                n,
            ) by {
                let i = choose|i: int| 0 <= i < b.found.len() && b.found[i] == n;
                assert(c.found[i] == n);
            }
            assert(c.found[b.found.len() as int] == name);
            assert forall|n: Seq<char>| #[trigger] c.found.contains(n) implies n == name
                || b.found.contains(n) by {
                let i = choose|i: int| 0 <= i < c.found.len() && c.found[i] == n;
                if i < b.found.len() {
                    assert(b.found[i] == n);
                }
            }
        }
        assert(c.found.contains(name));
        assert forall|n: Seq<char>| #[trigger] names.contains(n) implies c.found.contains(n) by {
            let i = choose|i: int| 0 <= i < names.len() && names[i] == n;
            if i < front.len() {
                assert(front[i] == n);
                assert(front.contains(n));
            }
        }
    }
}

/// The dependencies of a skill are listed once each, and with every skill in the list, and with the
/// skill itself, the list holds all that it depends on.
pub proof fn law_dependency_tree_is_complete(
    d: Map<Seq<char>, Seq<Seq<char>>>,
    name: Seq<char>,
)
    requires
        d.dom().finite(),
    ensures
        dependency_tree(d, name).no_duplicates(),
        forall|n: Seq<char>, i: int|
            (n == name || dependency_tree(d, name).contains(n)) && d.contains_key(n) && 0 <= i
                < d[n].len() ==> dependency_tree(d, name).contains(#[trigger] d[n][i]),
{
    let w = Walk { found: Seq::empty(), visited: Set::empty() };
    lemma_collected(d, name, w);
}

/// Whether a list of names leads from one to the next by dependencies, in one step at least.
pub open spec fn is_path(d: Map<Seq<char>, Seq<Seq<char>>>, p: Seq<Seq<char>>) -> bool {
    &&& p.len() >= 2
    &&& forall|i: int|
        0 <= i < p.len() - 1 ==> d.contains_key(#[trigger] p[i]) && d[p[i]].contains(p[i + 1])
}

/// Whether `a` depends on `b`, directly or indirectly.
pub open spec fn depends(d: Map<Seq<char>, Seq<Seq<char>>>, a: Seq<char>, b: Seq<char>) -> bool {
    exists|p: Seq<Seq<char>>| #[trigger] is_path(d, p) && p[0] == a && p.last() == b
}

proof fn lemma_depends_directly(d: Map<Seq<char>, Seq<Seq<char>>>, a: Seq<char>, b: Seq<char>)
    requires
        d.contains_key(a),
        d[a].contains(b),
    ensures
        depends(d, a, b),
{
    let p = seq![a, b];
    assert(p[1] == b);
    assert(is_path(d, p));
}

proof fn lemma_depends_on_from(
    d: Map<Seq<char>, Seq<Seq<char>>>,
    a: Seq<char>,
    b: Seq<char>,
    c: Seq<char>,
)
    requires
        depends(d, a, b),
        depends(d, b, c),
    ensures
        depends(d, a, c),
{
    let p = choose|p: Seq<Seq<char>>| #[trigger] is_path(d, p) && p[0] == a && p.last() == b;
    let q = choose|q: Seq<Seq<char>>| #[trigger] is_path(d, q) && q[0] == b && q.last() == c;
    let r = p + q.drop_first();
    assert forall|i: int| 0 <= i < r.len() - 1 implies d.contains_key(#[trigger] r[i])
        && d[r[i]].contains(r[i + 1]) by {
        if i < p.len() - 1 {
            assert(r[i] == p[i] && r[i + 1] == p[i + 1]);
        } else {
            let k = i - p.len() + 1;
            assert(r[i] == q[k]);
            assert(r[i + 1] == q[k + 1]);
        }
    }
    assert(r[0] == p[0]);
    assert(r.last() == q.last());
    assert(is_path(d, r));
}

proof fn lemma_found_depends(
    d: Map<Seq<char>, Seq<Seq<char>>>,
    name: Seq<char>,
    w: Walk,
    n: Seq<char>,
)
    requires
        d.dom().finite(),
        collected(d, name, w).found.contains(n),
    ensures
        w.found.contains(n) || depends(d, name, n),
    decreases unvisited(d, w.visited), 0nat,
{
    if !w.visited.contains(name) && d.contains_key(name) {
        let entered = Walk { found: w.found, visited: w.visited.insert(name) };
        lemma_fewer_left(d, w.visited, entered.visited);
        lemma_all_found_depend(d, d[name], entered, n);
        if !w.found.contains(n) {
            let m = choose|m: Seq<char>| #[trigger]
                d[name].contains(m) && (n == m || depends(d, m, n));
            lemma_depends_directly(d, name, m);
            if n != m {
                lemma_depends_on_from(d, name, m, n);
            }
        }
    }
}

proof fn lemma_all_found_depend(
    d: Map<Seq<char>, Seq<Seq<char>>>,
    names: Seq<Seq<char>>,
    w: Walk,
    n: Seq<char>,
)
    requires
        d.dom().finite(),
        collected_all(d, names, w).found.contains(n),
    ensures
        w.found.contains(n) || exists|m: Seq<char>| #[trigger]
            names.contains(m) && (n == m || depends(d, m, n)),
    decreases unvisited(d, w.visited), names.len() + 1,
{
    if names.len() > 0 {
        let front = names.drop_last();
        let last = names.last();
        lemma_collected_all(d, front, w);
        let a = collected_all(d, front, w);
        lemma_fewer_left(d, w.visited, a.visited);
        let b = collected(d, last, a);
        assert(names[names.len() - 1] == last);
        assert(names.contains(last));
        if n != last {
            assert(b.found.contains(n)) by {
                let c = with_found(b, last).found;
                let i = choose|i: int| 0 <= i < c.len() && c[i] == n;
                if i < b.found.len() {
                    assert(b.found[i] == n);
                }
            }
            lemma_found_depends(d, last, a, n);
            if a.found.contains(n) {
                lemma_all_found_depend(d, front, w, n);
                if !w.found.contains(n) {
                    let m = choose|m: Seq<char>| #[trigger]
                        front.contains(m) && (n == m || depends(d, m, n));
                    let i = choose|i: int| 0 <= i < front.len() && front[i] == m;
                    assert(names[i] == m);
                    assert(names.contains(m));
                }
            }
        }
    }
}

/// Nothing is listed but what the skill depends on.
pub proof fn law_only_dependencies_are_listed(
    d: Map<Seq<char>, Seq<Seq<char>>>,
    name: Seq<char>,
    n: Seq<char>,
)
    requires
        d.dom().finite(),
        dependency_tree(d, name).contains(n),
    ensures
        depends(d, name, n),
{
    lemma_found_depends(d, name, Walk { found: Seq::empty(), visited: Set::empty() }, n);
}

/// Whether each name in a list stands behind all that it depends on directly.
pub open spec fn behind_needs(d: Map<Seq<char>, Seq<Seq<char>>>, found: Seq<Seq<char>>) -> bool {
    forall|i: int, k: int|
        0 <= i < found.len() && d.contains_key(found[i]) && 0 <= k < d[found[i]].len()
            ==> found.take(i).contains(#[trigger] d[found[i]][k])
}

/// Whether no name that `name` depends on, nor the name itself, depends on itself.
pub open spec fn without_cycle(d: Map<Seq<char>, Seq<Seq<char>>>, name: Seq<char>) -> bool {
    forall|n: Seq<char>| n == name || depends(d, name, n) ==> !#[trigger] depends(d, n, n)
}

/// What holds of a walk while the names in `open` are entered and not yet left.
spec fn in_good_order(d: Map<Seq<char>, Seq<Seq<char>>>, w: Walk, open: Set<Seq<char>>) -> bool {
    &&& behind_needs(d, w.found)
    &&& forall|n: Seq<char>| #[trigger]
        w.visited.contains(n) ==> w.found.contains(n) || open.contains(n)
}

proof fn lemma_needs_found(d: Map<Seq<char>, Seq<Seq<char>>>, found: Seq<Seq<char>>, name: Seq<char>)
    requires
        behind_needs(d, found),
        found.contains(name),
        d.contains_key(name),
    ensures
        forall|k: int| 0 <= k < d[name].len() ==> found.contains(#[trigger] d[name][k]),
{
    let i = choose|i: int| 0 <= i < found.len() && found[i] == name;
    assert forall|k: int| 0 <= k < d[name].len() implies found.contains(#[trigger] d[name][k]) by {
        assert(found.take(i).contains(d[found[i]][k]));
        let j = choose|j: int| 0 <= j < i && found.take(i)[j] == d[name][k];
        assert(found[j] == d[name][k]);
    }
}

proof fn lemma_collected_in_order(
    d: Map<Seq<char>, Seq<Seq<char>>>,
    name: Seq<char>,
    w: Walk,
    open: Set<Seq<char>>,
)
    requires
        d.dom().finite(),
        without_cycle(d, name),
        in_good_order(d, w, open),
        forall|s: Seq<char>| #[trigger] open.contains(s) ==> depends(d, s, name),
    ensures
        in_good_order(d, collected(d, name, w), open.insert(name)),
        d.contains_key(name) ==> forall|k: int|
            0 <= k < d[name].len() ==> collected(d, name, w).found.contains(
                #[trigger] d[name][k],
            ),
    decreases unvisited(d, w.visited), 0nat,
{
    if w.visited.contains(name) {
        assert(!depends(d, name, name));
        assert(w.found.contains(name));
        if d.contains_key(name) {
            lemma_needs_found(d, w.found, name);
        }
    } else {
        let entered = Walk { found: w.found, visited: w.visited.insert(name) };
        if d.contains_key(name) {
            let names = d[name];
            lemma_fewer_left(d, w.visited, entered.visited);
            assert forall|i: int| 0 <= i < names.len() implies without_cycle(
                d,
                #[trigger] names[i],
            ) && forall|s: Seq<char>| #[trigger]
                open.insert(name).contains(s) ==> depends(d, s, names[i]) by {
                let m = names[i];
                lemma_depends_directly(d, name, m);
                assert forall|n: Seq<char>| n == m || depends(d, m, n) implies !#[trigger] depends(
                    d,
                    n,
                    n,
                ) by {
                    if n != m {
                        lemma_depends_on_from(d, name, m, n);
                    }
                }
                assert forall|s: Seq<char>| #[trigger] open.insert(name).contains(s) implies depends(
                    d,
                    s,
                    m,
                ) by {
                    if s != name {
                        lemma_depends_on_from(d, s, name, m);
                    }
                }
            }
            lemma_all_collected_in_order(d, names, entered, open.insert(name));
            lemma_collected_all(d, names, entered);
            assert forall|k: int| 0 <= k < names.len() implies collected(
                d,
                name,
                w,
            ).found.contains(#[trigger] names[k]) by {
                assert(names.contains(names[k]));
            }
        }
    }
}

proof fn lemma_all_collected_in_order(
    d: Map<Seq<char>, Seq<Seq<char>>>,
    names: Seq<Seq<char>>,
    w: Walk,
    open: Set<Seq<char>>,
)
    requires
        d.dom().finite(),
        in_good_order(d, w, open),
        forall|i: int|
            0 <= i < names.len() ==> without_cycle(d, #[trigger] names[i]) && forall|
                s: Seq<char>,
            | #[trigger]
                open.contains(s) ==> depends(d, s, names[i]),
    ensures
        in_good_order(d, collected_all(d, names, w), open),
    decreases unvisited(d, w.visited), names.len() + 1,
{
    if names.len() > 0 {
        let front = names.drop_last();
        let last = names.last();
        assert forall|i: int| 0 <= i < front.len() implies without_cycle(d, #[trigger] front[i])
            && forall|s: Seq<char>| #[trigger] open.contains(s) ==> depends(d, s, front[i]) by {
            assert(front[i] == names[i]);
        }
        lemma_all_collected_in_order(d, front, w, open);
        lemma_collected_all(d, front, w);
        let a = collected_all(d, front, w);
        lemma_fewer_left(d, w.visited, a.visited);
        assert(names[names.len() - 1] == last);
        lemma_collected_in_order(d, last, a, open);
        let b = collected(d, last, a);
        let c = with_found(b, last);
        if !b.found.contains(last) {
            assert forall|i: int, k: int|
                0 <= i < c.found.len() && d.contains_key(c.found[i]) && 0 <= k
                    < d[c.found[i]].len() implies c.found.take(i).contains(
                #[trigger] d[c.found[i]][k],
            ) by {
                if i < b.found.len() {
                    assert(c.found[i] == b.found[i]);
                    assert(c.found.take(i) =~= b.found.take(i));
                } else {
                    assert(c.found.take(i) =~= b.found);
                }
            }
            assert forall|n: Seq<char>| #[trigger] c.visited.contains(n) implies c.found.contains(n)
                || open.contains(n) by {
                assert(c.found[b.found.len() as int] == last);
                if b.found.contains(n) {
                    let i = choose|i: int| 0 <= i < b.found.len() && b.found[i] == n;
                    assert(c.found[i] == n);
                }
            }
        }
    }
}

/// Where no dependency leads back to itself, each skill is listed behind those that it needs.
pub proof fn law_dependencies_come_first(
    d: Map<Seq<char>, Seq<Seq<char>>>,
    name: Seq<char>,
)
    requires
        d.dom().finite(),
        without_cycle(d, name),
    ensures
        behind_needs(d, dependency_tree(d, name)),
{
    lemma_collected_in_order(
        d,
        name,
        Walk { found: Seq::empty(), visited: Set::empty() },
        Set::empty(),
    );
}

// ── Files of skills ─────────────────────────────────────────────────────────────────────────

/// The body of a skill file: what follows the header, which stands between lines of three hyphens.
/// A file without a header is all body; one whose header is left open has none.
pub open spec fn body_of(content: Seq<char>) -> Seq<char> {
    let t = trim_start(content);
    if !"---"@.is_prefix_of(t) {
        content
    } else {
        let after = strip_leading(strip_leading(t.subrange(3, t.len() as int), '\r'), '\n');
        match find(after, "\n---"@) {
            Some(i) => strip_leading(
                strip_leading(after.subrange(i + 4, after.len() as int), '\r'),
                '\n',
            ),
            None => Seq::empty(),
        }
    }
}

fn without_white_start(s: &str) -> (r: String)
    ensures
        r@ == trim_start(s@),
{
    let v = chars_of(s);
    let mut i: usize = 0;
    assert(s@.subrange(0, s@.len() as int) =~= s@);
    while i < v.len() && crate::text::is_white_char(v[i])
        invariant
            v@ == s@,
            i <= v.len(),
            trim_start(s@) == trim_start(s@.subrange(i as int, s@.len() as int)),
        decreases v.len() - i,
    {
        let ghost t = s@.subrange(i as int, s@.len() as int);
        assert(t.drop_first() =~= s@.subrange(i + 1, s@.len() as int));
        i = i + 1;
    }
    string_of(&v, i, v.len())
}

/// The body of a skill file.
pub fn extract_body(content: &str) -> (r: String)
    ensures
        r@ == body_of(content@),
{
    let t = without_white_start(content);
    proof {
        reveal_strlit("---");
        reveal_strlit("\n---");
    }
    if !starts_with(t.as_str(), "---") {
        return content.to_owned();
    }
    let v = chars_of(t.as_str());
    let rest = string_of(&v, 3, v.len());
    let after = without_leading(without_leading(rest.as_str(), '\r').as_str(), '\n');
    let a = chars_of(after.as_str());
    let p = chars_of("\n---");
    proof {
        lemma_find_from(after@, "\n---"@, 0);
    }
    match find_pos(&a, &p, 0) {
        Some(i) => {
            let tail = string_of(&a, i + 4, a.len());
            without_leading(without_leading(tail.as_str(), '\r').as_str(), '\n')
        },
        None => String::new(),
    }
}

/// Whether a file beside the skill file is a resource.
pub open spec fn loose_resource(name: Seq<char>) -> bool {
    name != "SKILL.md"@ && (".md"@.is_suffix_of(name) || ".txt"@.is_suffix_of(name)
        || ".yaml"@.is_suffix_of(name) || ".yml"@.is_suffix_of(name) || ".json"@.is_suffix_of(name))
}

/// The entries for the files of a directory.
pub open spec fn dir_entries(
    dir: Seq<char>,
    kind: SkillResourceKind,
    files: Seq<Seq<char>>,
) -> Seq<(Seq<char>, SkillResourceKind)> {
    files.map_values(|f: Seq<char>| (dir + "/"@ + f, kind))
}

/// The entries for the files beside the skill file.
pub open spec fn loose_entries(files: Seq<Seq<char>>) -> Seq<(Seq<char>, SkillResourceKind)>
    decreases files.len(),
{
    if files.len() == 0 {
        Seq::empty()
    } else if loose_resource(files.last()) {
        loose_entries(files.drop_last()).push((files.last(), SkillResourceKind::Other))
    } else {
        loose_entries(files.drop_last())
    }
}

/// The entries in order with one more put behind all that do not come after it.
pub open spec fn placed(
    entries: Seq<(Seq<char>, SkillResourceKind)>,
    e: (Seq<char>, SkillResourceKind),
) -> Seq<(Seq<char>, SkillResourceKind)>
    decreases entries.len(),
{
    if entries.len() == 0 || !lex_lt(e.0, entries.last().0) {
        entries.push(e)
    } else {
        placed(entries.drop_last(), e).push(entries.last())
    }
}

/// The entries by path; those with one path stay in their order.
pub open spec fn by_path(entries: Seq<(Seq<char>, SkillResourceKind)>) -> Seq<
    (Seq<char>, SkillResourceKind),
>
    decreases entries.len(),
{
    if entries.len() == 0 {
        Seq::empty()
    } else {
        placed(by_path(entries.drop_last()), entries.last())
    }
}

/// The resources of a skill, given the files of its directories.
pub open spec fn resources_from(
    scripts: Seq<Seq<char>>,
    references: Seq<Seq<char>>,
    assets: Seq<Seq<char>>,
    beside: Seq<Seq<char>>,
) -> Seq<(Seq<char>, SkillResourceKind)> {
    by_path(
        dir_entries("scripts"@, SkillResourceKind::Script, scripts) + dir_entries(
            "references"@,
            SkillResourceKind::Reference,
            references,
        ) + dir_entries("assets"@, SkillResourceKind::Asset, assets) + loose_entries(beside),
    )
}

fn add_dir(
    out: &mut Vec<SkillResourceEntry>,
    dir: &str,
    kind: SkillResourceKind,
    files: &Vec<String>,
)
    ensures
        entry_views(final(out)@) == entry_views(old(out)@) + dir_entries(dir@, kind, strs(files@)),
{
    let ghost base = entry_views(out@);
    let ghost all = dir_entries(dir@, kind, strs(files@));
    let mut i: usize = 0;
    assert(base + all.take(0) =~= base);
    while i < files.len()
        invariant
            all == dir_entries(dir@, kind, strs(files@)),
            i <= files.len(),
            entry_views(out@) == base + all.take(i as int),
        decreases files.len() - i,
    {
        let mut path = concat(dir, "/");
        path.push_str(files[i].as_str());
        let ghost prev = out@;
        out.push(SkillResourceEntry { relative_path: path, kind });
        assert(entry_views(out@) =~= entry_views(prev).push((path@, kind)));
        assert(all[i as int] == (path@, kind));
        assert(base + all.take(i as int).push(all[i as int]) =~= base + all.take(i + 1));
        assert((base + all.take(i as int)).push(all[i as int]) =~= base + all.take(i + 1));
        i = i + 1;
    }
    assert(all.take(all.len() as int) =~= all);
}

fn is_loose_resource(name: &str) -> (r: bool)
    ensures
        r == loose_resource(name@),
{
    !same(name, "SKILL.md") && (ends_with(name, ".md") || ends_with(name, ".txt") || ends_with(
        name,
        ".yaml",
    ) || ends_with(name, ".yml") || ends_with(name, ".json"))
}

fn add_loose(out: &mut Vec<SkillResourceEntry>, files: &Vec<String>)
    ensures
        entry_views(final(out)@) == entry_views(old(out)@) + loose_entries(strs(files@)),
{
    let ghost base = entry_views(out@);
    let ghost all = strs(files@);
    let mut i: usize = 0;
    assert(all.take(0) =~= Seq::<Seq<char>>::empty());
    assert(base + loose_entries(all.take(0)) =~= base);
    while i < files.len()
        invariant
            all == strs(files@),
            i <= files.len(),
            entry_views(out@) == base + loose_entries(all.take(i as int)),
        decreases files.len() - i,
    {
        let name = files[i].as_str();
        assert(all.take(i + 1).drop_last() =~= all.take(i as int));
        assert(all.take(i + 1).last() == name@);
        if is_loose_resource(name) {
            let ghost prev = out@;
            out.push(
                SkillResourceEntry {
                    relative_path: name.to_owned(),
                    kind: SkillResourceKind::Other,
                },
            );
            assert(entry_views(out@) =~= entry_views(prev).push(
                (name@, SkillResourceKind::Other),
            ));
            assert(entry_views(out@) =~= base + loose_entries(all.take(i + 1)));
        }
        i = i + 1;
    }
    assert(all.take(all.len() as int) =~= all);
}

proof fn lemma_placed(
    entries: Seq<(Seq<char>, SkillResourceKind)>,
    e: (Seq<char>, SkillResourceKind),
    pos: int,
)
    requires
        0 <= pos <= entries.len(),
        pos > 0 ==> !lex_lt(e.0, entries[pos - 1].0),
        forall|k: int| pos <= k < entries.len() ==> lex_lt(e.0, (#[trigger] entries[k]).0),
    ensures
        placed(entries, e) == entries.insert(pos, e),
    decreases entries.len(),
{
    if entries.len() == 0 || pos == entries.len() {
        assert(entries.insert(pos, e) =~= entries.push(e));
    } else {
        let front = entries.drop_last();
        lemma_placed(front, e, pos);
        assert(entries.insert(pos, e) =~= front.insert(pos, e).push(entries.last()));
    }
}

fn sort_by_path(entries: Vec<SkillResourceEntry>) -> (r: Vec<SkillResourceEntry>)
    ensures
        entry_views(r@) == by_path(entry_views(entries@)),
{
    let ghost all = entry_views(entries@);
    let mut out: Vec<SkillResourceEntry> = Vec::new();
    let mut i: usize = 0;
    assert(all.take(0) =~= Seq::empty());
    assert(entry_views(out@) =~= Seq::empty());
    while i < entries.len()
        invariant
            all == entry_views(entries@),
            i <= entries.len(),
            entry_views(out@) == by_path(all.take(i as int)),
        decreases entries.len() - i,
    {
        let ghost views = entry_views(out@);
        let ghost e = all[i as int];
        let path = entries[i].relative_path.as_str();
        let mut pos: usize = out.len();
        while pos > 0 && before(path, out[pos - 1].relative_path.as_str())
            invariant
                pos <= out.len(),
                path@ == e.0,
                views == entry_views(out@),
                forall|k: int| pos <= k < views.len() ==> lex_lt(e.0, (#[trigger] views[k]).0),
            decreases pos,
        {
            assert(views[pos - 1].0 == out@[pos - 1].relative_path@);
            pos = pos - 1;
        }
        proof {
            if pos > 0 {
                assert(views[pos - 1].0 == out@[pos - 1].relative_path@);
            }
            lemma_placed(views, e, pos as int);
        }
        let ghost prev = out@;
        let copy = SkillResourceEntry {
            relative_path: entries[i].relative_path.clone(),
            kind: entries[i].kind,
        };
        out.insert(pos, copy);
        assert(entry_views(out@) =~= views.insert(pos as int, e));
        assert(all.take(i + 1).drop_last() =~= all.take(i as int));
        i = i + 1;
    }
    assert(all.take(all.len() as int) =~= all);
    out
}

/// The resources of a skill, given the files of its directories.
pub fn list_resources(
    scripts: &Vec<String>,
    references: &Vec<String>,
    assets: &Vec<String>,
    beside: &Vec<String>,
) -> (r: Vec<SkillResourceEntry>)
    ensures
        entry_views(r@) == resources_from(
            strs(scripts@),
            strs(references@),
            strs(assets@),
            strs(beside@),
        ),
{
    let mut out: Vec<SkillResourceEntry> = Vec::new();
    assert(entry_views(out@) + dir_entries(
        "scripts"@,
        SkillResourceKind::Script,
        strs(scripts@),
    ) =~= dir_entries("scripts"@, SkillResourceKind::Script, strs(scripts@)));
    add_dir(&mut out, "scripts", SkillResourceKind::Script, scripts);
    add_dir(&mut out, "references", SkillResourceKind::Reference, references);
    add_dir(&mut out, "assets", SkillResourceKind::Asset, assets);
    add_loose(&mut out, beside);
    sort_by_path(out)
}

proof fn lemma_placed_holds(
    entries: Seq<(Seq<char>, SkillResourceKind)>,
    e: (Seq<char>, SkillResourceKind),
)
    requires
        paths_in_order(entries),
    ensures
        paths_in_order(placed(entries, e)),
        placed(entries, e).to_multiset() == entries.to_multiset().insert(e),
    decreases entries.len(),
{
    broadcast use vstd::seq_lib::group_to_multiset_ensures;

    if entries.len() > 0 && lex_lt(e.0, entries.last().0) {
        let front = entries.drop_last();
        let last = entries.last();
        lemma_placed_holds(front, e);
        let p = placed(front, e);
        let q = p.push(last);
        assert(entries =~= front.push(last));
        assert forall|i: int, j: int| 0 <= i < j < q.len() implies !lex_lt(
            (#[trigger] q[j]).0,
            (#[trigger] q[i]).0,
        ) by {
            if j == p.len() {
                assert(p.to_multiset().count(p[i]) > 0);
                if p[i] == e {
                    if lex_lt(last.0, e.0) {
                        crate::table::lemma_lex_transitive(e.0, last.0, e.0);
                        crate::table::lemma_lex_irreflexive(e.0);
                    }
                } else {
                    assert(front.to_multiset().count(p[i]) > 0);
                    assert(front.contains(p[i]));
                    let k = choose|k: int| 0 <= k < front.len() && front[k] == p[i];
                    assert(entries[k] == p[i]);
                    assert(entries[entries.len() - 1] == last);
                }
            }
        }
        assert(placed(entries, e).to_multiset() =~= entries.to_multiset().insert(e));
    } else {
        let q = entries.push(e);
        assert forall|i: int, j: int| 0 <= i < j < q.len() implies !lex_lt(
            (#[trigger] q[j]).0,
            (#[trigger] q[i]).0,
        ) by {
            if j == entries.len() && lex_lt(e.0, entries[i].0) {
                let last = entries.last();
                if i < entries.len() - 1 {
                    assert(!lex_lt(entries[entries.len() - 1].0, entries[i].0));
                    crate::table::lemma_lex_total(entries[i].0, last.0);
                    if lex_lt(entries[i].0, last.0) {
                        crate::table::lemma_lex_transitive(e.0, entries[i].0, last.0);
                    }
                }
            }
        }
    }
}

/// Whether no entry comes before an earlier one.
pub open spec fn paths_in_order(entries: Seq<(Seq<char>, SkillResourceKind)>) -> bool {
    forall|i: int, j: int|
        0 <= i < j < entries.len() ==> !lex_lt((#[trigger] entries[j]).0, (#[trigger] entries[i]).0)
}

/// Sorting resources keeps every one of them, and leaves none before an earlier one.
pub proof fn law_resources_are_sorted(entries: Seq<(Seq<char>, SkillResourceKind)>)
    ensures
        paths_in_order(by_path(entries)),
        by_path(entries).to_multiset() == entries.to_multiset(),
    decreases entries.len(),
{
    broadcast use vstd::seq_lib::group_to_multiset_ensures;

    if entries.len() > 0 {
        let front = entries.drop_last();
        law_resources_are_sorted(front);
        lemma_placed_holds(by_path(front), entries.last());
        assert(entries =~= front.push(entries.last()));
        assert(by_path(entries).to_multiset() =~= entries.to_multiset());
    }
}

// ── Registry ────────────────────────────────────────────────────────────────────────────────

/// The lines of the catalog.
pub open spec fn catalog_lines(
    d: Map<Seq<char>, SkillDescriptor>,
    names: Seq<Seq<char>>,
) -> Seq<Seq<char>> {
    seq![CATALOG_INTRO@, Seq::<char>::empty()] + names.map_values(|n: Seq<char>| d[n].line())
}

/// What the catalog begins with.
pub const CATALOG_INTRO: &'static str =
    "The following skills provide specialized instructions for specific tasks.\nWhen a task matches a skill's description, call the `activate_skill` tool with the skill's name to load its full instructions.";

/// The text that goes before the instructions of a skill whose dependencies were activated.
pub open spec fn with_dependencies(deps: Seq<Seq<char>>, instructions: Seq<char>) -> Seq<char> {
    if deps.len() == 0 {
        instructions
    } else {
        "<skill-dependencies>\nActivated dependencies: "@ + join(deps, ", "@)
            + "\n</skill-dependencies>\n\n"@ + instructions
    }
}

impl SkillRegistry {
    #[verifier::type_invariant]
    spec fn named_by_themselves(&self) -> bool {
        &&& forall|n: Seq<char>| #[trigger]
            self.descriptors@.contains_key(n) ==> self.descriptors@[n].name@ == n
        &&& forall|n: Seq<char>| #[trigger]
            self.code_skills@.contains_key(n) ==> self.code_skills@[n].name@ == n
    }

    /// The skills that were found in files.
    pub closed spec fn descriptors(&self) -> Map<Seq<char>, SkillDescriptor> {
        self.descriptors@
    }

    /// The instructions from the headers of old skill files.
    pub closed spec fn legacy(&self) -> Map<Seq<char>, String> {
        self.legacy_instructions@
    }

    /// The names of the active skills.
    pub closed spec fn active(&self) -> Set<Seq<char>> {
        self.activated@.dom()
    }

    /// The skills that the program itself brings.
    pub closed spec fn code_skills(&self) -> Map<Seq<char>, SkillInfo> {
        self.code_skills@
    }

    /// The sandbox policies of active skills.
    pub closed spec fn policies(&self) -> Map<Seq<char>, SkillSandboxPolicy> {
        self.active_policies@
    }

    /// The identifier of the session.
    pub closed spec fn session(&self) -> Seq<char> {
        self.session_id@
    }

    /// What each skill depends on.
    pub open spec fn dependencies(&self) -> Map<Seq<char>, Seq<Seq<char>>> {
        self.descriptors().map_values(|d: SkillDescriptor| strs(d.depends_on@))
    }

    /// Whether everything but the descriptors and the old instructions is as in `other`.
    pub open spec fn same_activity(&self, other: SkillRegistry) -> bool {
        &&& self.active() == other.active()
        &&& self.code_skills() == other.code_skills()
        &&& self.policies() == other.policies()
        &&& self.session() == other.session()
    }

    /// A registry without skills, for a session of its own.
    pub fn new() -> (r: SkillRegistry)
        ensures
            r.descriptors() == Map::<Seq<char>, SkillDescriptor>::empty(),
            r.legacy() == Map::<Seq<char>, String>::empty(),
            r.active() == Set::<Seq<char>>::empty(),
            r.code_skills() == Map::<Seq<char>, SkillInfo>::empty(),
            r.policies() == Map::<Seq<char>, SkillSandboxPolicy>::empty(),
            exists|u: Seq<char>| #[trigger] is_uuid_text(u) && r.session() == "session-"@ + u.take(8),
    {
        let id = random_uuid();
        let v = chars_of(id.as_str());
        let short = string_of(&v, 0, 8);
        assert(short@ =~= id@.take(8));
        let r = SkillRegistry {
            descriptors: Table::new(),
            legacy_instructions: Table::new(),
            activated: Table::new(),
            code_skills: Table::new(),
            session_id: concat("session-", short.as_str()),
            active_policies: Table::new(),
        };
        assert(r.active() =~= Set::<Seq<char>>::empty());
        r
    }

    /// Registers a skill that was found in a file, in place of one with the same name.
    pub fn register_descriptor(&mut self, descriptor: SkillDescriptor)
        ensures
            final(self).descriptors() == old(self).descriptors().insert(
                descriptor.name@,
                descriptor,
            ),
            final(self).legacy() == old(self).legacy(),
            final(self).same_activity(*old(self)),
    {
        proof {
            use_type_invariant(&*self);
        }
        let name = descriptor.name.clone();
        let mut t: Table<SkillDescriptor> = Table::new();
        core::mem::swap(&mut self.descriptors, &mut t);
        let _ = t.insert(name, descriptor);
        self.descriptors = t;
    }

    /// Registers a skill together with the instructions from the header of its file.
    pub fn register_descriptor_with_legacy(
        &mut self,
        descriptor: SkillDescriptor,
        legacy_instructions: Option<String>,
    )
        ensures
            final(self).descriptors() == old(self).descriptors().insert(
                descriptor.name@,
                descriptor,
            ),
            final(self).legacy() == match legacy_instructions {
                Some(t) => if trim(t@).len() > 0 {
                    old(self).legacy().insert(descriptor.name@, t)
                } else {
                    old(self).legacy()
                },
                None => old(self).legacy(),
            },
            final(self).same_activity(*old(self)),
    {
        proof {
            use_type_invariant(&*self);
        }
        if let Some(t) = legacy_instructions {
            if !trimmed(t.as_str()).as_str().is_empty() {
                let mut l: Table<String> = Table::new();
                core::mem::swap(&mut self.legacy_instructions, &mut l);
                let _ = l.insert(descriptor.name.clone(), t);
                self.legacy_instructions = l;
            }
        }
        self.register_descriptor(descriptor);
    }

    /// The descriptor with a name.
    pub fn get_descriptor(&self, name: &str) -> (r: Option<&SkillDescriptor>)
        ensures
            match r {
                Some(d) => self.descriptors().contains_key(name@) && *d
                    == self.descriptors()[name@] && d.name@ == name@,
                None => !self.descriptors().contains_key(name@),
            },
    {
        proof {
            use_type_invariant(self);
        }
        self.descriptors.get(name)
    }

    /// The descriptors by name.
    pub fn list_descriptors(&self) -> (r: Vec<&SkillDescriptor>)
        ensures
            r@ == in_order(self.descriptors().dom()).map_values(
                |n: Seq<char>| &self.descriptors()[n],
            ),
            self.descriptors().dom().finite(),
            r@.len() == self.descriptors().dom().len(),
            increasing(r@.map_values(|d: &SkillDescriptor| d.name@)),
            r@.map_values(|d: &SkillDescriptor| d.name@).to_set() == self.descriptors().dom(),
    {
        proof {
            use_type_invariant(self);
        }
        let n: usize = self.descriptors.len();
        proof {
            law_names_are_listed_in_order(self.descriptors().dom());
        }
        let names = self.descriptors.sorted_keys();
        let ghost all = in_order(self.descriptors().dom());
        let mut out: Vec<&SkillDescriptor> = Vec::new();
        let mut i: usize = 0;
        while i < names.len()
            invariant
                all == strs(names@),
                all.to_set() == self.descriptors().dom(),
                i <= names.len(),
                out.len() == i,
                forall|k: int| 0 <= k < i ==> *(#[trigger] out@[k]) == self.descriptors()[all[k]],
            decreases names.len() - i,
        {
            assert(all[i as int] == names@[i as int]@);
            assert(all.to_set().contains(all[i as int]));
            if let Some(d) = self.descriptors.get(names[i].as_str()) {
                out.push(d);
            }
            i = i + 1;
        }
        assert(out@ =~= all.map_values(|n: Seq<char>| &self.descriptors()[n]));
        assert(out@.map_values(|d: &SkillDescriptor| d.name@) =~= all) by {
            assert forall|k: int| 0 <= k < all.len() implies (#[trigger] out@[k]).name@
                == all[k] by {
                assert(all.to_set().contains(all[k]));
            }
        }
        out
    }

    /// The number of descriptors.
    pub fn descriptor_count(&self) -> (r: usize)
        ensures
            self.descriptors().dom().finite(),
            r == self.descriptors().dom().len(),
    {
        self.descriptors.len()
    }

    /// The catalog of skills for the model; nothing where there are none.
    pub fn catalog_prompt(&self) -> (r: Option<String>)
        ensures
            opt_str(r) == if self.descriptors().dom().len() == 0 {
                None
            } else {
                Some(
                    join(
                        catalog_lines(self.descriptors(), in_order(self.descriptors().dom())),
                        "\n"@,
                    ),
                )
            },
    {
        if self.descriptors.len() == 0 {
            return None;
        }
        let mut lines = no_strings();
        add_to(&mut lines, CATALOG_INTRO);
        add_to(&mut lines, "");
        proof {
            reveal_strlit("");
            assert(""@ =~= Seq::<char>::empty());
        }
        assert(strs(lines@) =~= seq![CATALOG_INTRO@, Seq::<char>::empty()]);
        let names = self.descriptors.sorted_keys();
        let ghost all = in_order(self.descriptors().dom());
        let ghost full = catalog_lines(self.descriptors(), all);
        let mut i: usize = 0;
        assert(full.take(2) =~= strs(lines@));
        while i < names.len()
            invariant
                all == strs(names@),
                all.to_set() == self.descriptors().dom(),
                full == catalog_lines(self.descriptors(), all),
                i <= names.len(),
                strs(lines@) == full.take(2 + i as int),
            decreases names.len() - i,
        {
            assert(all[i as int] == names@[i as int]@);
            assert(all.to_set().contains(all[i as int]));
            if let Some(d) = self.descriptors.get(names[i].as_str()) {
                let line = d.catalog_line();
                assert(full[2 + i as int] == line@);
                add_to(&mut lines, line.as_str());
                assert(full.take(2 + i as int).push(line@) =~= full.take(3 + i as int));
            }
            i = i + 1;
        }
        assert(full.take(full.len() as int) =~= full);
        Some(joined(&lines, "\n"))
    }

    /// The names of the skills that were found in files, in order.
    pub fn available_names(&self) -> (r: Vec<String>)
        ensures
            strs(r@) == in_order(self.descriptors().dom()),
            increasing(strs(r@)),
            strs(r@).to_set() == self.descriptors().dom(),
    {
        self.descriptors.sorted_keys()
    }

    /// Marks a skill as active; `false` where it was active before.
    pub fn mark_activated(&mut self, name: &str) -> (r: bool)
        ensures
            r == !old(self).active().contains(name@),
            final(self).active() == old(self).active().insert(name@),
            final(self).descriptors() == old(self).descriptors(),
            final(self).legacy() == old(self).legacy(),
            final(self).code_skills() == old(self).code_skills(),
            final(self).policies() == old(self).policies(),
            final(self).session() == old(self).session(),
    {
        proof {
            use_type_invariant(&*self);
        }
        let fresh = !self.activated.contains_key(name);
        let mut t: Table<()> = Table::new();
        core::mem::swap(&mut self.activated, &mut t);
        let _ = t.insert(name.to_owned(), ());
        self.activated = t;
        assert(self.active() =~= old(self).active().insert(name@));
        fresh
    }

    /// Whether a skill is active.
    pub fn is_activated(&self, name: &str) -> (r: bool)
        ensures
            r == self.active().contains(name@),
    {
        self.activated.contains_key(name)
    }

    /// Whether an active skill lists the tools that it may use.
    pub open spec fn restricted(&self) -> bool {
        exists|n: Seq<char>| self.restricts(n)
    }

    /// Whether a skill is active and lists the tools that it may use.
    pub open spec fn restricts(&self, n: Seq<char>) -> bool {
        self.active().contains(n) && self.descriptors().contains_key(n)
            && self.descriptors()[n].allowed_tools@.len() > 0
    }

    /// Whether an active skill lists a tool.
    pub open spec fn lists_tool(&self, tool: Seq<char>) -> bool {
        exists|n: Seq<char>| #[trigger]
            self.restricts(n) && strs(self.descriptors()[n].allowed_tools@).contains(tool)
    }

    /// The tools that the active skills list, in order; nothing where none of them lists any, so
    /// that every tool may be used.
    pub fn active_skill_allowed_tools(&self) -> (r: Option<Vec<String>>)
        ensures
            r is Some <==> self.restricted(),
            r matches Some(tools) ==> increasing(strs(tools@)) && forall|t: Seq<char>| #[trigger]
                strs(tools@).contains(t) <==> self.lists_tool(t),
    {
        let names = self.activated.keys();
        let ghost all = strs(names@);
        let mut tools: Table<()> = Table::new();
        let mut any = false;
        let mut i: usize = 0;
        while i < names.len()
            invariant
                all == strs(names@),
                all.to_set() == self.active(),
                i <= names.len(),
                any == exists|k: int| 0 <= k < i && self.restricts(#[trigger] all[k]),
                forall|t: Seq<char>| #[trigger]
                    tools@.contains_key(t) <==> exists|k: int|
                        0 <= k < i && self.restricts(#[trigger] all[k]) && strs(
                            self.descriptors()[all[k]].allowed_tools@,
                        ).contains(t),
            decreases names.len() - i,
        {
            assert(all[i as int] == names@[i as int]@);
            assert(all.to_set().contains(all[i as int]));
            let ghost before = tools@;
            if let Some(d) = self.descriptors.get(names[i].as_str()) {
                if d.allowed_tools.len() > 0 {
                    any = true;
                    let ghost listed = strs(d.allowed_tools@);
                    let mut j: usize = 0;
                    while j < d.allowed_tools.len()
                        invariant
                            listed == strs(d.allowed_tools@),
                            j <= d.allowed_tools.len(),
                            forall|t: Seq<char>| #[trigger]
                                tools@.contains_key(t) <==> before.contains_key(t) || listed.take(
                                    j as int,
                                ).contains(t),
                        decreases d.allowed_tools.len() - j,
                    {
                        let ghost prev = tools@;
                        let tool = d.allowed_tools[j].clone();
                        assert(listed[j as int] == tool@);
                        let _ = tools.insert(tool, ());
                        assert forall|t: Seq<char>| #[trigger]
                            tools@.contains_key(t) <==> before.contains_key(t) || listed.take(
                                j + 1,
                            ).contains(t) by {
                            let now = listed.take(j + 1);
                            let was = listed.take(j as int);
                            if was.contains(t) {
                                let k = choose|k: int| 0 <= k < was.len() && was[k] == t;
                                assert(now[k] == t);
                            }
                            if now.contains(t) {
                                let k = choose|k: int| 0 <= k < now.len() && now[k] == t;
                                if k < j {
                                    assert(was[k] == t);
                                }
                            }
                            assert(now[j as int] == listed[j as int]);
                        }
                        j = j + 1;
                    }
                    assert(listed.take(listed.len() as int) =~= listed);
                }
            }
            proof {
                let n = all[i as int];
                assert forall|t: Seq<char>| #[trigger]
                    tools@.contains_key(t) <==> exists|k: int|
                        0 <= k < i + 1 && self.restricts(#[trigger] all[k]) && strs(
                            self.descriptors()[all[k]].allowed_tools@,
                        ).contains(t) by {
                    if before.contains_key(t) {
                        let k = choose|k: int|
                            0 <= k < i && self.restricts(#[trigger] all[k]) && strs(
                                self.descriptors()[all[k]].allowed_tools@,
                            ).contains(t);
                        assert(0 <= k < i + 1);
                    }
                    if self.restricts(n) && strs(self.descriptors()[n].allowed_tools@).contains(t) {
                        assert(self.restricts(all[i as int]));
                    }
                }
            }
            i = i + 1;
        }
        proof {
            assert(any == self.restricted()) by {
                if self.restricted() {
                    let n = choose|n: Seq<char>| self.restricts(n);
                    assert(all.to_set().contains(n));
                    assert(all.contains(n));
                    let k = choose|k: int| 0 <= k < all.len() && all[k] == n;
                    assert(self.restricts(all[k]));
                }
            }
        }
        if any {
            let r = tools.sorted_keys();
            proof {
                assert forall|t: Seq<char>| #[trigger]
                    strs(r@).contains(t) <==> self.lists_tool(t) by {
                    assert(strs(r@).to_set().contains(t) == tools@.contains_key(t));
                    if self.lists_tool(t) {
                        let n = choose|n: Seq<char>| #[trigger]
                            self.restricts(n) && strs(
                                self.descriptors()[n].allowed_tools@,
                            ).contains(t);
                        assert(all.to_set().contains(n));
                        assert(all.contains(n));
                        let k = choose|k: int| 0 <= k < all.len() && all[k] == n;
                        assert(self.restricts(all[k]));
                    }
                }
            }
            Some(r)
        } else {
            None
        }
    }

    /// The number of active skills.
    pub fn activated_count(&self) -> (r: usize)
        ensures
            self.active().finite(),
            r == self.active().len(),
    {
        self.activated.len()
    }

    /// The names of the active skills, in order.
    pub fn activated_names(&self) -> (r: Vec<String>)
        ensures
            strs(r@) == in_order(self.active()),
            increasing(strs(r@)),
            strs(r@).to_set() == self.active(),
    {
        self.activated.sorted_keys()
    }

    // ── Activation ──────────────────────────────────────────────────────────────────────────

    /// Whether a skill is to be activated before one that depends on it: it is known and not
    /// active.
    pub open spec fn due(&self, dep: Seq<char>) -> bool {
        !self.active().contains(dep) && self.descriptors().contains_key(dep)
    }

    /// The position of the first dependency of a skill, at or behind `from`, that is to be
    /// activated.
    pub fn next_dependency(&self, name: &str, from: usize) -> (r: Option<usize>)
        ensures
            match r {
                Some(i) => {
                    &&& self.descriptors().contains_key(name@)
                    &&& from <= i < self.dependencies()[name@].len()
                    &&& self.due(self.dependencies()[name@][i as int])
                    &&& forall|k: int|
                        from <= k < i ==> !self.due(#[trigger] self.dependencies()[name@][k])
                },
                None => self.descriptors().contains_key(name@) ==> forall|k: int|
                    from <= k < self.dependencies()[name@].len() ==> !self.due(
                        #[trigger] self.dependencies()[name@][k],
                    ),
            },
    {
        let d = match self.descriptors.get(name) {
            Some(d) => d,
            None => {
                return None;
            },
        };
        let ghost deps = self.dependencies()[name@];
        assert(deps == strs(d.depends_on@));
        let mut i: usize = from;
        while i < d.depends_on.len()
            invariant
                deps == strs(d.depends_on@),
                self.descriptors().contains_key(name@),
                deps == self.dependencies()[name@],
                from <= i,
                forall|k: int| from <= k < i ==> !self.due(#[trigger] deps[k]),
            decreases d.depends_on.len() - i,
        {
            let dep = d.depends_on[i].as_str();
            assert(deps[i as int] == dep@);
            if !self.activated.contains_key(dep) && self.descriptors.contains_key(dep) {
                return Some(i);
            }
            i = i + 1;
        }
        None
    }

    /// The directory of a skill that is to be activated.
    pub fn skill_directory(&self, name: &str) -> (r: Result<String, ReactError>)
        ensures
            match r {
                Ok(dir) => self.descriptors().contains_key(name@) && parent(
                    self.descriptors()[name@].location@,
                ) == Some(dir@),
                Err(e) => e matches ReactError::Other(m) && if !self.descriptors().contains_key(
                    name@,
                ) {
                    m@ == "Skill '"@ + name@ + "' not found in catalog"@
                } else {
                    parent(self.descriptors()[name@].location@) is None && m@
                        == "Cannot determine skill directory from '"@
                        + self.descriptors()[name@].location@ + "'"@
                },
            },
    {
        match self.descriptors.get(name) {
            Some(d) => match parent_of(d.location.as_str()) {
                Some(dir) => Ok(dir),
                None => {
                    let mut m = concat(
                        "Cannot determine skill directory from '",
                        d.location.as_str(),
                    );
                    m.push_str("'");
                    Err(ReactError::Other(m))
                },
            },
            None => {
                let mut m = concat("Skill '", name);
                m.push_str("' not found in catalog");
                Err(ReactError::Other(m))
            },
        }
    }

    /// The instructions of a skill, given its file: the body, or the instructions from an old
    /// header where there is no body.
    pub fn raw_instructions(&self, name: &str, file: &str) -> (r: String)
        ensures
            r@ == if trim(body_of(file@)).len() == 0 && self.legacy().contains_key(name@) && trim(
                self.legacy()[name@]@,
            ).len() > 0 {
                self.legacy()[name@]@
            } else {
                body_of(file@)
            },
    {
        let body = extract_body(file);
        if trimmed(body.as_str()).as_str().is_empty() {
            if let Some(l) = self.legacy_instructions.get(name) {
                if !trimmed(l.as_str()).as_str().is_empty() {
                    return l.clone();
                }
            }
        }
        body
    }

    /// What the instructions of a skill are processed with.
    pub fn prompt_context(
        &self,
        name: &str,
        skill_dir: &str,
        args: &Vec<String>,
        source: SkillSource,
    ) -> (r: PromptContext)
        ensures
            r.skill_dir@ == skill_dir@,
            r.session_id@ == self.session(),
            strs(r.arguments@) == strs(args@),
            r.shell == if self.descriptors().contains_key(name@) {
                self.descriptors()[name@].shell
            } else {
                None
            },
            r.timeout_ms == DEFAULT_CMD_TIMEOUT_MS,
            r.source == source,
    {
        let shell: Option<String> = match self.descriptors.get(name) {
            Some(d) => match &d.shell {
                Some(s) => Some(s.clone()),
                None => None,
            },
            None => None,
        };
        PromptContext {
            skill_dir: skill_dir.to_owned(),
            session_id: self.session_id.clone(),
            arguments: copy_strings(args),
            shell,
            timeout_ms: DEFAULT_CMD_TIMEOUT_MS,
            source,
        }
    }

    /// The policy that an activation puts in force.
    pub open spec fn new_policy(&self, name: Seq<char>) -> Option<PolicyView> {
        if self.descriptors().contains_key(name) {
            match self.descriptors()[name].sandbox {
                Some(p) => if p@.constrains() {
                    Some(p@)
                } else {
                    None
                },
                None => None,
            }
        } else {
            None
        }
    }

    /// Puts the sandbox policy of a skill in force, where it constrains anything, and marks the
    /// skill as active.
    pub fn finish_activation(&mut self, name: &str)
        ensures
            final(self).active() == old(self).active().insert(name@),
            match old(self).new_policy(name@) {
                Some(p) => final(self).policies().contains_key(name@) && final(self).policies()[name@]@ == p && final(self).policies().remove(name@) == old(self).policies().remove(name@),
                None => final(self).policies() == old(self).policies(),
            },
            final(self).descriptors() == old(self).descriptors(),
            final(self).legacy() == old(self).legacy(),
            final(self).code_skills() == old(self).code_skills(),
            final(self).session() == old(self).session(),
    {
        proof {
            use_type_invariant(&*self);
        }
        let policy: Option<SkillSandboxPolicy> = match self.descriptors.get(name) {
            Some(d) => match &d.sandbox {
                Some(p) => if p.is_constraining() {
                    Some(p.copy())
                } else {
                    None
                },
                None => None,
            },
            None => None,
        };
        if let Some(p) = policy {
            let mut t: Table<SkillSandboxPolicy> = Table::new();
            core::mem::swap(&mut self.active_policies, &mut t);
            let _ = t.insert(name.to_owned(), p);
            self.active_policies = t;
            assert(self.policies().remove(name@) =~= old(self).policies().remove(name@));
        }
        let _ = self.mark_activated(name);
    }

    /// What an activated skill gives, with its dependencies named before its instructions.
    pub fn content<'a>(
        &'a self,
        name: &str,
        deps_activated: &Vec<String>,
        instructions: &str,
        resources: Vec<SkillResourceEntry>,
    ) -> (r: Option<SkillContent<'a>>)
        ensures
            match r {
                Some(c) => {
                    &&& self.descriptors().contains_key(name@)
                    &&& *c.descriptor == self.descriptors()[name@]
                    &&& c.instructions@ == with_dependencies(
                        strs(deps_activated@),
                        instructions@,
                    )
                    &&& c.resources == resources
                },
                None => !self.descriptors().contains_key(name@),
            },
    {
        let descriptor = match self.descriptors.get(name) {
            Some(d) => d,
            None => {
                return None;
            },
        };
        let text = if deps_activated.len() > 0 {
            let mut m = concat(
                "<skill-dependencies>\nActivated dependencies: ",
                joined(deps_activated, ", ").as_str(),
            );
            m.push_str("\n</skill-dependencies>\n\n");
            m.push_str(instructions);
            m
        } else {
            instructions.to_owned()
        };
        Some(SkillContent { descriptor, instructions: text, resources })
    }

    /// The sandbox policy in force for a skill.
    pub fn get_active_sandbox_policy(&self, skill_name: &str) -> (r: Option<&SkillSandboxPolicy>)
        ensures
            match r {
                Some(p) => self.policies().contains_key(skill_name@) && *p
                    == self.policies()[skill_name@],
                None => !self.policies().contains_key(skill_name@),
            },
    {
        self.active_policies.get(skill_name)
    }

    fn collect_dependencies(
        &self,
        name: &str,
        found: &mut Vec<String>,
        visited: &mut Table<()>,
    )
        requires
            self.dependencies().dom().finite(),
        ensures
            (Walk { found: strs(final(found)@), visited: final(visited)@.dom() }) == collected(
                self.dependencies(),
                name@,
                Walk { found: strs(old(found)@), visited: old(visited)@.dom() },
            ),
        decreases unvisited(self.dependencies(), old(visited)@.dom()),
    {
        let ghost d = self.dependencies();
        let ghost start = Walk { found: strs(found@), visited: visited@.dom() };
        if visited.contains_key(name) {
            return;
        }
        let _ = visited.insert(name.to_owned(), ());
        let ghost entered = Walk { found: start.found, visited: start.visited.insert(name@) };
        assert(visited@.dom() =~= entered.visited);
        proof {
            lemma_fewer_left(d, start.visited, entered.visited);
        }
        if let Some(s) = self.descriptors.get(name) {
            let ghost deps = strs(s.depends_on@);
            assert(d[name@] == deps);
            let mut i: usize = 0;
            assert(deps.take(0) =~= Seq::<Seq<char>>::empty());
            while i < s.depends_on.len()
                invariant
                    d == self.dependencies(),
                    d.dom().finite(),
                    deps == strs(s.depends_on@),
                    d.contains_key(name@),
                    !start.visited.contains(name@),
                    entered.visited == start.visited.insert(name@),
                    start.visited == old(visited)@.dom(),
                    unvisited(d, entered.visited) < unvisited(d, start.visited),
                    i <= s.depends_on.len(),
                    (Walk { found: strs(found@), visited: visited@.dom() }) == collected_all(
                        d,
                        deps.take(i as int),
                        entered,
                    ),
                decreases s.depends_on.len() - i,
            {
                let dep = s.depends_on[i].as_str();
                proof {
                    lemma_collected_all(d, deps.take(i as int), entered);
                    lemma_fewer_left(d, entered.visited, visited@.dom());
                    assert(deps.take(i + 1).drop_last() =~= deps.take(i as int));
                    assert(deps.take(i + 1).last() == dep@);
                }
                self.collect_dependencies(dep, found, visited);
                if !has_string(found, dep) {
                    add_to(found, dep);
                }
                i = i + 1;
            }
            assert(deps.take(deps.len() as int) =~= deps);
        }
    }

    /// The dependencies of a skill, direct and indirect, each behind those that it needs itself where
    /// none leads back to itself.
    pub fn get_dependency_tree(&self, name: &str) -> (r: Vec<String>)
        ensures
            strs(r@) == dependency_tree(self.dependencies(), name@),
            self.dependencies().dom().finite(),
    {
        let mut found = no_strings();
        let mut visited: Table<()> = Table::new();
        let n: usize = self.descriptors.len();
        assert(self.dependencies().dom() =~= self.descriptors().dom());
        assert(visited@.dom() =~= Set::<Seq<char>>::empty());
        self.collect_dependencies(name, &mut found, &mut visited);
        found
    }

    // ── Skills of the program ───────────────────────────────────────────────────────────────

    /// Records a skill that the program itself brings.
    pub fn record_code_skill(&mut self, info: SkillInfo)
        ensures
            final(self).code_skills() == old(self).code_skills().insert(info.name@, info),
            final(self).descriptors() == old(self).descriptors(),
            final(self).legacy() == old(self).legacy(),
            final(self).active() == old(self).active(),
            final(self).policies() == old(self).policies(),
            final(self).session() == old(self).session(),
    {
        proof {
            use_type_invariant(&*self);
        }
        let name = info.name.clone();
        let mut t: Table<SkillInfo> = Table::new();
        core::mem::swap(&mut self.code_skills, &mut t);
        let _ = t.insert(name, info);
        self.code_skills = t;
    }

    /// Whether the program brings a skill.
    pub fn has_code_skill(&self, name: &str) -> (r: bool)
        ensures
            r == self.code_skills().contains_key(name@),
    {
        self.code_skills.contains_key(name)
    }

    /// A skill of the program.
    pub fn get_code_skill(&self, name: &str) -> (r: Option<&SkillInfo>)
        ensures
            match r {
                Some(i) => self.code_skills().contains_key(name@) && *i
                    == self.code_skills()[name@],
                None => !self.code_skills().contains_key(name@),
            },
    {
        self.code_skills.get(name)
    }

    /// The skills of the program, by name, each once.
    pub fn list_code_skills(&self) -> (r: Vec<&SkillInfo>)
        ensures
            r@ == in_order(self.code_skills().dom()).map_values(
                |n: Seq<char>| &self.code_skills()[n],
            ),
            self.code_skills().dom().finite(),
            r@.len() == self.code_skills().dom().len(),
            increasing(r@.map_values(|i: &SkillInfo| i.name@)),
            r@.map_values(|i: &SkillInfo| i.name@).to_set() == self.code_skills().dom(),
    {
        proof {
            use_type_invariant(self);
        }
        let n: usize = self.code_skills.len();
        proof {
            law_names_are_listed_in_order(self.code_skills().dom());
        }
        let names = self.code_skills.sorted_keys();
        let ghost all = in_order(self.code_skills().dom());
        let mut out: Vec<&SkillInfo> = Vec::new();
        let mut i: usize = 0;
        while i < names.len()
            invariant
                all == strs(names@),
                all.to_set() == self.code_skills().dom(),
                i <= names.len(),
                out.len() == i,
                forall|k: int| 0 <= k < i ==> *(#[trigger] out@[k]) == self.code_skills()[all[k]],
            decreases names.len() - i,
        {
            assert(all[i as int] == names@[i as int]@);
            assert(all.to_set().contains(all[i as int]));
            if let Some(d) = self.code_skills.get(names[i].as_str()) {
                out.push(d);
            }
            i = i + 1;
        }
        assert(out@ =~= all.map_values(|n: Seq<char>| &self.code_skills()[n]));
        assert(out@.map_values(|i: &SkillInfo| i.name@) =~= all) by {
            assert forall|k: int| 0 <= k < all.len() implies (#[trigger] out@[k]).name@
                == all[k] by {
                assert(all.to_set().contains(all[k]));
            }
        }
        out
    }

    /// Whether a skill is known, from a file or from the program.
    pub fn is_installed(&self, name: &str) -> (r: bool)
        ensures
            r == (self.code_skills().contains_key(name@) || self.descriptors().contains_key(name@)),
    {
        self.code_skills.contains_key(name) || self.descriptors.contains_key(name)
    }

    /// The number of skills, those from files and those of the program.
    pub fn count(&self) -> (r: usize)
        requires
            self.code_skills().dom().len() + self.descriptors().dom().len() <= usize::MAX,
        ensures
            self.code_skills().dom().finite(),
            self.descriptors().dom().finite(),
            r == self.code_skills().dom().len() + self.descriptors().dom().len(),
    {
        self.code_skills.len() + self.descriptors.len()
    }

    /// What is listed of the skills: those of the program by name, then those from files by name.
    pub open spec fn all_infos(&self) -> Seq<InfoView> {
        in_order(self.code_skills().dom()).map_values(
            |n: Seq<char>| self.code_skills()[n]@,
        ) + in_order(self.descriptors().dom()).map_values(
            |n: Seq<char>| file_info(self.descriptors()[n]),
        )
    }

    /// All skills, those of the program and those from files; there are as many as are counted.
    pub fn list(&self) -> (r: Vec<SkillInfo>)
        ensures
            r@.map_values(|i: SkillInfo| i@) == self.all_infos(),
            self.code_skills().dom().finite(),
            self.descriptors().dom().finite(),
            r@.len() == self.code_skills().dom().len() + self.descriptors().dom().len(),
    {
        let code = self.list_code_skills();
        let files = self.list_descriptors();
        let ghost goal = self.all_infos();
        let ghost n = code@.len();
        let mut out: Vec<SkillInfo> = Vec::new();
        let mut i: usize = 0;
        while i < code.len()
            invariant
                goal == self.all_infos(),
                n == code@.len(),
                code@ == in_order(self.code_skills().dom()).map_values(
                    |n: Seq<char>| &self.code_skills()[n],
                ),
                i <= code.len(),
                out.len() == i,
                forall|k: int| 0 <= k < i ==> (#[trigger] out@[k])@ == goal[k],
            decreases code.len() - i,
        {
            out.push(code[i].copy());
            assert(goal[i as int] == code@[i as int]@);
            i = i + 1;
        }
        let mut j: usize = 0;
        while j < files.len()
            invariant
                goal == self.all_infos(),
                n == in_order(self.code_skills().dom()).len(),
                files@ == in_order(self.descriptors().dom()).map_values(
                    |n: Seq<char>| &self.descriptors()[n],
                ),
                j <= files.len(),
                out.len() == n + j,
                forall|k: int| 0 <= k < n + j ==> (#[trigger] out@[k])@ == goal[k],
            decreases files.len() - j,
        {
            out.push(info_of_file(files[j]));
            assert(goal[n + j] == file_info(*files@[j as int]));
            j = j + 1;
        }
        assert(out@.map_values(|i: SkillInfo| i@) =~= goal);
        out
    }

    /// A skill of the program.
    pub fn get(&self, name: &str) -> (r: Option<&SkillInfo>)
        ensures
            match r {
                Some(i) => self.code_skills().contains_key(name@) && *i
                    == self.code_skills()[name@],
                None => !self.code_skills().contains_key(name@),
            },
    {
        self.code_skills.get(name)
    }
}

impl Default for SkillRegistry {
    fn default() -> (r: SkillRegistry)
        ensures
            r.descriptors() == Map::<Seq<char>, SkillDescriptor>::empty(),
            r.legacy() == Map::<Seq<char>, String>::empty(),
            r.active() == Set::<Seq<char>>::empty(),
            r.code_skills() == Map::<Seq<char>, SkillInfo>::empty(),
            r.policies() == Map::<Seq<char>, SkillSandboxPolicy>::empty(),
            exists|u: Seq<char>| #[trigger] is_uuid_text(u) && r.session() == "session-"@ + u.take(8),
    {
        SkillRegistry::new()
    }
}

/// The skills are as many as the listed skills of the program and from files together. Taking a
/// skill up again under its name leaves the number of its kind; a new name adds one.
pub proof fn law_skills_are_counted(
    code: Map<Seq<char>, SkillInfo>,
    files: Map<Seq<char>, SkillDescriptor>,
    info: SkillInfo,
    descriptor: SkillDescriptor,
)
    requires
        code.dom().finite(),
        files.dom().finite(),
    ensures
        in_order(code.dom()).len() + in_order(files.dom()).len() == code.dom().len()
            + files.dom().len(),
        code.insert(info.name@, info).dom().len() == code.dom().len() + if code.contains_key(
            info.name@,
        ) {
            0int
        } else {
            1
        },
        files.insert(descriptor.name@, descriptor).dom().len() == files.dom().len()
            + if files.contains_key(descriptor.name@) {
            0int
        } else {
            1
        },
{
    law_names_are_listed_in_order(code.dom());
    law_names_are_listed_in_order(files.dom());
    assert(code.insert(info.name@, info).dom() =~= code.dom().insert(info.name@));
    assert(files.insert(descriptor.name@, descriptor).dom() =~= files.dom().insert(
        descriptor.name@,
    ));
}

/// The resources of a skill are the files of its three directories, each under the name of its
/// directory and with the kind of it, and the files beside the skill file that are documents; there
/// are no others.
pub proof fn law_resources_are_the_files(
    scripts: Seq<Seq<char>>,
    references: Seq<Seq<char>>,
    assets: Seq<Seq<char>>,
    beside: Seq<Seq<char>>,
    path: Seq<char>,
    kind: SkillResourceKind,
)
    ensures
        resources_from(scripts, references, assets, beside).contains((path, kind)) <==> match kind {
            SkillResourceKind::Script => exists|i: int|
                0 <= i < scripts.len() && path == "scripts/"@ + #[trigger] scripts[i],
            SkillResourceKind::Reference => exists|i: int|
                0 <= i < references.len() && path == "references/"@ + #[trigger] references[i],
            SkillResourceKind::Asset => exists|i: int|
                0 <= i < assets.len() && path == "assets/"@ + #[trigger] assets[i],
            SkillResourceKind::Other => beside.contains(path) && path != "SKILL.md"@ && (
            ".md"@.is_suffix_of(path) || ".txt"@.is_suffix_of(path) || ".yaml"@.is_suffix_of(path)
                || ".yml"@.is_suffix_of(path) || ".json"@.is_suffix_of(path)),
        },
{
    broadcast use vstd::seq_lib::group_to_multiset_ensures;

    let a = dir_entries("scripts"@, SkillResourceKind::Script, scripts);
    let b = dir_entries("references"@, SkillResourceKind::Reference, references);
    let c = dir_entries("assets"@, SkillResourceKind::Asset, assets);
    let d = loose_entries(beside);
    let all = a + b + c + d;
    let x = (path, kind);
    law_resources_are_sorted(all);
    assert(by_path(all).contains(x) == (by_path(all).to_multiset().count(x) > 0));
    assert(all.contains(x) == (all.to_multiset().count(x) > 0));
    lemma_four_lists(a, b, c, d, x);
    lemma_dir_entries("scripts"@, "scripts/"@, SkillResourceKind::Script, scripts, path, kind);
    lemma_dir_entries(
        "references"@,
        "references/"@,
        SkillResourceKind::Reference,
        references,
        path,
        kind,
    );
    lemma_dir_entries("assets"@, "assets/"@, SkillResourceKind::Asset, assets, path, kind);
    lemma_loose_entries(beside, path, kind);
}

proof fn lemma_four_lists<A>(a: Seq<A>, b: Seq<A>, c: Seq<A>, d: Seq<A>, x: A)
    ensures
        (a + b + c + d).contains(x) <==> a.contains(x) || b.contains(x) || c.contains(x)
            || d.contains(x),
{
    let all = a + b + c + d;
    if a.contains(x) {
        assert(all[a.index_of(x)] == x);
    }
    if b.contains(x) {
        assert(all[a.len() + b.index_of(x)] == x);
    }
    if c.contains(x) {
        assert(all[a.len() + b.len() + c.index_of(x)] == x);
    }
    if d.contains(x) {
        assert(all[a.len() + b.len() + c.len() + d.index_of(x)] == x);
    }
    if all.contains(x) {
        let i = all.index_of(x);
        if i < a.len() {
            assert(a[i] == x);
        } else if i < a.len() + b.len() {
            assert(b[i - a.len()] == x);
        } else if i < a.len() + b.len() + c.len() {
            assert(c[i - a.len() - b.len()] == x);
        } else {
            assert(d[i - a.len() - b.len() - c.len()] == x);
        }
    }
}

proof fn lemma_dir_entries(
    dir: Seq<char>,
    slash: Seq<char>,
    of: SkillResourceKind,
    files: Seq<Seq<char>>,
    path: Seq<char>,
    kind: SkillResourceKind,
)
    requires
        (dir == "scripts"@ && slash == "scripts/"@) || (dir == "references"@ && slash
            == "references/"@) || (dir == "assets"@ && slash == "assets/"@),
    ensures
        dir_entries(dir, of, files).contains((path, kind)) <==> kind == of && exists|i: int|
            0 <= i < files.len() && path == slash + #[trigger] files[i],
{
    reveal_strlit("scripts");
    reveal_strlit("scripts/");
    reveal_strlit("references");
    reveal_strlit("references/");
    reveal_strlit("assets");
    reveal_strlit("assets/");
    reveal_strlit("/");
    assert(dir + "/"@ =~= slash);
    let e = dir_entries(dir, of, files);
    if e.contains((path, kind)) {
        let i = e.index_of((path, kind));
        assert(path == slash + files[i]);
    }
    if kind == of {
        if exists|i: int| 0 <= i < files.len() && path == slash + #[trigger] files[i] {
            let i = choose|i: int| 0 <= i < files.len() && path == slash + #[trigger] files[i];
            assert(e[i] == (path, kind));
        }
    }
}

proof fn lemma_loose_entries(files: Seq<Seq<char>>, path: Seq<char>, kind: SkillResourceKind)
    ensures
        loose_entries(files).contains((path, kind)) <==> kind == SkillResourceKind::Other
            && files.contains(path) && loose_resource(path),
    decreases files.len(),
{
    if files.len() > 0 {
        let front = files.drop_last();
        let last = files.last();
        lemma_loose_entries(front, path, kind);
        let before = loose_entries(front);
        let x = (path, kind);
        assert(files =~= front.push(last));
        if front.contains(path) {
            assert(files[front.index_of(path)] == path);
        }
        if path == last {
            assert(files[files.len() - 1] == path);
        }
        if files.contains(path) && path != last {
            let i = files.index_of(path);
            assert(front[i] == path);
        }
        if loose_resource(last) {
            let now = before.push((last, SkillResourceKind::Other));
            if before.contains(x) {
                assert(now[before.index_of(x)] == x);
            }
            assert(now[before.len() as int] == (last, SkillResourceKind::Other));
            if now.contains(x) && !before.contains(x) {
                let i = now.index_of(x);
                if i < before.len() {
                    assert(before[i] == x);
                }
            }
        }
    }
}

/// The body of a skill file is what stands behind its header, which stands between two lines of three
/// hyphens; a file that does not begin with such a line is all body.
pub proof fn law_body_follows_the_header(header: Seq<char>, body: Seq<char>, plain: Seq<char>)
    requires
        header.len() > 0,
        header[0] != '\r' && header[0] != '\n',
        forall|i: int|
            0 <= i < header.len() ==> !#[trigger] occurs_at(
                header + "\n---"@ + "\n"@ + body,
                "\n---"@,
                i,
            ),
        body.len() > 0 ==> body[0] != '\n',
        plain.len() == 0 || (plain[0] != '-' && !is_white(plain[0])),
    ensures
        body_of("---\n"@ + header + "\n---"@ + "\n"@ + body) == body,
        body_of(plain) == plain,
{
    reveal_strlit("---\n");
    reveal_strlit("\n---");
    reveal_strlit("\n");
    reveal_strlit("---");
    let s = "---\n"@ + header + "\n---"@ + "\n"@ + body;
    assert(!is_white('-'));
    assert(s[0] == '-');
    assert(trim_start(s) == s);
    assert("---"@ =~= s.take(3));
    let rest = s.subrange(3, s.len() as int);
    assert(rest[0] == '\n');
    assert(strip_leading(rest, '\r') == rest);
    let after = header + "\n---"@ + "\n"@ + body;
    assert(rest.drop_first() =~= after);
    assert(after[0] == header[0]);
    assert(strip_leading(after, '\n') == after);
    assert(strip_leading(rest, '\n') == after);
    let n = header.len() as int;
    assert(after.subrange(n, n + 4) =~= "\n---"@);
    assert(occurs_at(after, "\n---"@, n));
    lemma_find_from(after, "\n---"@, 0);
    let tail = after.subrange(n + 4, after.len() as int);
    assert(tail =~= "\n"@ + body);
    assert(tail[0] == '\n');
    assert(strip_leading(tail, '\r') == tail);
    assert(tail.drop_first() =~= body);
    assert(strip_leading(body, '\n') == body);
    if "---"@.is_prefix_of(plain) {
        assert("---"@[0] == plain[0]);
    }
}

/// The catalog tells of every skill that was found in a file, in a line of its own, and of no other;
/// the lines stand in the order of the names.
pub proof fn law_catalog_tells_of_every_skill(d: Map<Seq<char>, SkillDescriptor>, name: Seq<char>)
    requires
        d.dom().finite(),
    ensures
        catalog_lines(d, in_order(d.dom())).len() == d.dom().len() + 2,
        d.contains_key(name) ==> exists|i: int|
            0 <= i < d.dom().len() && #[trigger] in_order(d.dom())[i] == name && catalog_lines(
                d,
                in_order(d.dom()),
            )[i + 2] == d[name].line(),
        increasing(in_order(d.dom())),
{
    law_names_are_listed_in_order(d.dom());
    let names = in_order(d.dom());
    if d.contains_key(name) {
        assert(names.to_set().contains(name));
        let i = names.index_of(name);
        assert(names[i] == name);
    }
}

/// What is put before the instructions of a skill names every dependency that was activated with it,
/// and the instructions follow whole; without dependencies nothing is put before them.
pub proof fn law_instructions_stay_whole(deps: Seq<Seq<char>>, instructions: Seq<char>)
    ensures
        instructions.is_suffix_of(with_dependencies(deps, instructions)),
        deps.len() == 0 ==> with_dependencies(deps, instructions) == instructions,
        deps.len() > 0 ==> occurs_at(
            with_dependencies(deps, instructions),
            join(deps, ", "@),
            "<skill-dependencies>\nActivated dependencies: "@.len() as int,
        ),
{
    let w = with_dependencies(deps, instructions);
    let a = "<skill-dependencies>\nActivated dependencies: "@;
    let j = join(deps, ", "@);
    assert(instructions =~= w.subrange(w.len() - instructions.len(), w.len() as int));
    if deps.len() > 0 {
        assert(w.subrange(a.len() as int, (a.len() + j.len()) as int) =~= j);
    }
}

/// A skill restricts the tools exactly where it is active, was found in a file and lists tools; then the
/// tools that it lists may be used. Its policy comes into force with its activation exactly where it
/// sets anything.
pub proof fn law_active_skills_restrict_tools(reg: SkillRegistry, name: Seq<char>, i: int)
    ensures
        reg.restricts(name) <==> reg.active().contains(name) && reg.descriptors().contains_key(name)
            && reg.descriptors()[name].allowed_tools@.len() > 0,
        reg.restricts(name) ==> reg.restricted(),
        reg.restricts(name) && 0 <= i < reg.descriptors()[name].allowed_tools@.len()
            ==> reg.lists_tool(reg.descriptors()[name].allowed_tools@[i]@),
        reg.new_policy(name) is Some <==> reg.descriptors().contains_key(name)
            && reg.descriptors()[name].sandbox is Some && (
        reg.descriptors()[name].sandbox->0.isolation is Some
            || reg.descriptors()[name].sandbox->0.network is Some
            || reg.descriptors()[name].sandbox->0.timeout_secs is Some
            || reg.descriptors()[name].sandbox->0.allowed_paths@.len() > 0
            || reg.descriptors()[name].sandbox->0.denied_paths@.len() > 0),
        reg.new_policy(name) is Some ==> reg.new_policy(name)->0
            == reg.descriptors()[name].sandbox->0@,
{
    if reg.restricts(name) && 0 <= i < reg.descriptors()[name].allowed_tools@.len() {
        let tools = strs(reg.descriptors()[name].allowed_tools@);
        assert(tools[i] == reg.descriptors()[name].allowed_tools@[i]@);
        assert(tools.contains(tools[i]));
    }
}

/// A skill from a file is listed under its name with its description, without tools, as one that adds
/// instructions. A dependency is activated first exactly where it is known and not active.
pub proof fn law_files_are_listed_as_they_are(d: SkillDescriptor, reg: SkillRegistry, dep: Seq<char>)
    ensures
        file_info(d).name == d.name@,
        file_info(d).description == d.description@,
        file_info(d).tool_names.len() == 0,
        file_info(d).has_prompt_injection,
        reg.due(dep) <==> reg.descriptors().contains_key(dep) && !reg.active().contains(dep),
{
}

/// The list of all skills tells of every skill of the program and of every skill from a file, those of
/// the program first, each by name.
pub proof fn law_all_skills_are_listed(reg: SkillRegistry, name: Seq<char>)
    requires
        reg.code_skills().dom().finite(),
        reg.descriptors().dom().finite(),
    ensures
        reg.all_infos().len() == reg.code_skills().dom().len() + reg.descriptors().dom().len(),
        reg.code_skills().contains_key(name) ==> exists|i: int|
            0 <= i < reg.code_skills().dom().len() && #[trigger] reg.all_infos()[i]
                == reg.code_skills()[name]@,
        reg.descriptors().contains_key(name) ==> exists|i: int|
            reg.code_skills().dom().len() <= i < reg.all_infos().len()
                && #[trigger] reg.all_infos()[i] == file_info(reg.descriptors()[name]),
{
    law_names_are_listed_in_order(reg.code_skills().dom());
    law_names_are_listed_in_order(reg.descriptors().dom());
    let a = in_order(reg.code_skills().dom());
    let b = in_order(reg.descriptors().dom());
    if reg.code_skills().contains_key(name) {
        assert(a.to_set().contains(name));
        let i = a.index_of(name);
        assert(reg.all_infos()[i] == reg.code_skills()[name]@);
    }
    if reg.descriptors().contains_key(name) {
        assert(b.to_set().contains(name));
        let i = b.index_of(name);
        assert(reg.all_infos()[a.len() + i] == file_info(reg.descriptors()[name]));
    }
}

} // verus!
