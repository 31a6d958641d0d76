//! The registry of plugins: what is installed, what it brings, and in which order it is loaded.

use vstd::prelude::*;
use crate::paths::{file_name, file_name_of, join_path, joined_path};
use crate::plugin::{
    below, dependency_names, resolve_plugin_path, sanitize, sanitized, PluginComponents,
    PluginManifest, PluginScope,
};
use crate::lists::{copy_opt, copy_strings, reversed};
use crate::table::{Table, in_order, increasing, law_names_are_listed_in_order};
use crate::text::{
    add_to, chars_of, concat, contains, contains_str, ends_with, extend, find_from, find_pos, join,
    decimal, digits_mean, joined, law_decimal_notation_stands_for_its_number,
    law_text_is_split_at_each, lemma_find_from, lemma_split_some, lex_lt, lower_text, no_strings,
    opt_str, same, split,
    split_on, starts_with, string_of, strs, to_lower,
};

verus! {

// ── Entries ─────────────────────────────────────────────────────────────────────────────────

/// The paths of what a plugin brings.
pub struct ResolvedComponents {
    pub skill_dirs: Vec<String>,
    pub agent_files: Vec<String>,
    pub hooks_file: Option<String>,
    pub mcp_config_file: Option<String>,
    pub lsp_config_file: Option<String>,
    pub monitors_file: Option<String>,
    pub theme_files: Vec<String>,
    pub output_style_files: Vec<String>,
}

/// The paths of what a plugin brings.
#[verifier::ext_equal]
pub struct ResolvedView {
    pub skill_dirs: Seq<Seq<char>>,
    pub agent_files: Seq<Seq<char>>,
    pub hooks_file: Option<Seq<char>>,
    pub mcp_config_file: Option<Seq<char>>,
    pub lsp_config_file: Option<Seq<char>>,
    pub monitors_file: Option<Seq<char>>,
    pub theme_files: Seq<Seq<char>>,
    pub output_style_files: Seq<Seq<char>>,
}

impl View for ResolvedComponents {
    type V = ResolvedView;

    open spec fn view(&self) -> ResolvedView {
        ResolvedView {
            skill_dirs: strs(self.skill_dirs@),
            agent_files: strs(self.agent_files@),
            hooks_file: opt_str(self.hooks_file),
            mcp_config_file: opt_str(self.mcp_config_file),
            lsp_config_file: opt_str(self.lsp_config_file),
            monitors_file: opt_str(self.monitors_file),
            theme_files: strs(self.theme_files@),
            output_style_files: strs(self.output_style_files@),
        }
    }
}

impl ResolvedComponents {
    /// The same paths.
    pub fn copy(&self) -> (r: ResolvedComponents)
        ensures
            r@ == self@,
    {
        ResolvedComponents {
            skill_dirs: copy_strings(&self.skill_dirs),
            agent_files: copy_strings(&self.agent_files),
            hooks_file: copy_opt(&self.hooks_file),
            mcp_config_file: copy_opt(&self.mcp_config_file),
            lsp_config_file: copy_opt(&self.lsp_config_file),
            monitors_file: copy_opt(&self.monitors_file),
            theme_files: copy_strings(&self.theme_files),
            output_style_files: copy_strings(&self.output_style_files),
        }
    }
}

/// An installed plugin.
pub struct PluginEntry {
    /// What the plugin says of itself.
    pub manifest: PluginManifest,
    /// Its directory.
    pub root: String,
    /// Where it is installed.
    pub scope: PluginScope,
    /// Whether it is used.
    pub enabled: bool,
    /// The paths of what it brings, once they are resolved.
    pub resolved_components: Option<ResolvedComponents>,
}

/// The installed plugins by name.
pub struct PluginRegistry {
    plugins: Table<PluginEntry>,
    state_file: String,
    data_dir: String,
    project_root: Option<String>,
}

// ── Components ──────────────────────────────────────────────────────────────────────────────

/// What stands at a path.
pub enum PathState {
    /// Nothing.
    Missing,
    /// A file.
    File,
    /// A directory with these paths in it.
    Directory(Vec<String>),
}

/// Whether a directory stands at a path.
pub open spec fn is_dir(facts: Map<Seq<char>, PathState>, p: Seq<char>) -> bool {
    facts.contains_key(p) && facts[p] is Directory
}

/// Whether a file stands at a path.
pub open spec fn is_file(facts: Map<Seq<char>, PathState>, p: Seq<char>) -> bool {
    facts.contains_key(p) && facts[p] is File
}

/// Whether the last component of a path has an extension: text behind its last period, with text
/// before the period.
pub open spec fn has_extension(p: Seq<char>, ext: Seq<char>) -> bool {
    match file_name(p) {
        Some(n) => ("."@ + ext).is_suffix_of(n) && n.len() > ext.len() + 1,
        None => false,
    }
}

/// The paths with an extension.
pub open spec fn with_extension(paths: Seq<Seq<char>>, ext: Seq<char>) -> Seq<Seq<char>>
    decreases paths.len(),
{
    if paths.len() == 0 {
        Seq::empty()
    } else if has_extension(paths.last(), ext) {
        with_extension(paths.drop_last(), ext).push(paths.last())
    } else {
        with_extension(paths.drop_last(), ext)
    }
}

/// The directories among the named paths.
pub open spec fn found_dirs(
    facts: Map<Seq<char>, PathState>,
    root: Seq<char>,
    paths: Seq<Seq<char>>,
) -> Seq<Seq<char>>
    decreases paths.len(),
{
    if paths.len() == 0 {
        Seq::empty()
    } else {
        let before = found_dirs(facts, root, paths.drop_last());
        let p = below(root, paths.last());
        if is_dir(facts, p) {
            before.push(p)
        } else {
            before
        }
    }
}

/// The files among the named paths, and those with an extension in the directories among them.
pub open spec fn found_files(
    facts: Map<Seq<char>, PathState>,
    root: Seq<char>,
    paths: Seq<Seq<char>>,
    ext: Seq<char>,
) -> Seq<Seq<char>>
    decreases paths.len(),
{
    if paths.len() == 0 {
        Seq::empty()
    } else {
        let before = found_files(facts, root, paths.drop_last(), ext);
        let p = below(root, paths.last());
        if is_file(facts, p) {
            before.push(p)
        } else if is_dir(facts, p) {
            before + with_extension(strs(facts[p]->Directory_0@), ext)
        } else {
            before
        }
    }
}

/// The first of the named paths, where it is a file.
pub open spec fn found_first(
    facts: Map<Seq<char>, PathState>,
    root: Seq<char>,
    paths: Option<Vec<String>>,
) -> Option<Seq<char>> {
    match paths {
        Some(v) => if v@.len() > 0 && is_file(facts, below(root, v@[0]@)) {
            Some(below(root, v@[0]@))
        } else {
            None
        },
        None => None,
    }
}

/// The strings of a list that may be missing.
pub open spec fn listed(paths: Option<Vec<String>>) -> Seq<Seq<char>> {
    match paths {
        Some(v) => strs(v@),
        None => Seq::empty(),
    }
}

/// What a plugin brings. Where the manifest names no skills, they are looked for in `skills`; where
/// it names no servers, they are looked for in `.mcp.json`.
pub open spec fn components_of(
    c: PluginComponents,
    root: Seq<char>,
    facts: Map<Seq<char>, PathState>,
) -> ResolvedView {
    ResolvedView {
        skill_dirs: match c.skills {
            Some(v) => found_dirs(facts, root, strs(v@)),
            None => if is_dir(facts, joined_path(root, "skills"@)) {
                seq![joined_path(root, "skills"@)]
            } else {
                Seq::empty()
            },
        },
        agent_files: found_files(facts, root, listed(c.agents), "md"@),
        hooks_file: found_first(facts, root, c.hooks),
        mcp_config_file: match c.mcp_servers {
            Some(v) => found_first(facts, root, c.mcp_servers),
            None => if is_file(facts, joined_path(root, ".mcp.json"@)) {
                Some(joined_path(root, ".mcp.json"@))
            } else {
                None
            },
        },
        lsp_config_file: found_first(facts, root, c.lsp_servers),
        monitors_file: found_first(facts, root, c.monitors),
        theme_files: found_files(facts, root, listed(c.themes), "json"@),
        output_style_files: found_files(facts, root, listed(c.output_styles), "md"@),
    }
}

fn has_ext(p: &str, ext: &str) -> (r: bool)
    ensures
        r == has_extension(p@, ext@),
{
    match file_name_of(p) {
        Some(n) => {
            let end = concat(".", ext);
            proof {
                reveal_strlit(".");
            }
            let a: usize = chars_of(n.as_str()).len();
            let b: usize = chars_of(end.as_str()).len();
            ends_with(n.as_str(), end.as_str()) && a > b
        },
        None => false,
    }
}

fn with_ext(paths: &Vec<String>, ext: &str) -> (r: Vec<String>)
    ensures
        strs(r@) == with_extension(strs(paths@), ext@),
{
    let ghost all = strs(paths@);
    let mut out = no_strings();
    let mut i: usize = 0;
    assert(all.take(0) =~= Seq::<Seq<char>>::empty());
    while i < paths.len()
        invariant
            all == strs(paths@),
            i <= paths.len(),
            strs(out@) == with_extension(all.take(i as int), ext@),
        decreases paths.len() - i,
    {
        assert(all.take(i + 1).drop_last() =~= all.take(i as int));
        assert(all.take(i + 1).last() == paths@[i as int]@);
        if has_ext(paths[i].as_str(), ext) {
            add_to(&mut out, paths[i].as_str());
        }
        i = i + 1;
    }
    assert(all.take(all.len() as int) =~= all);
    out
}

fn find_dirs(facts: &Table<PathState>, root: &str, paths: &Vec<String>) -> (r: Vec<String>)
    ensures
        strs(r@) == found_dirs(facts@, root@, strs(paths@)),
{
    let ghost all = strs(paths@);
    let mut out = no_strings();
    let mut i: usize = 0;
    assert(all.take(0) =~= Seq::<Seq<char>>::empty());
    while i < paths.len()
        invariant
            all == strs(paths@),
            i <= paths.len(),
            strs(out@) == found_dirs(facts@, root@, all.take(i as int)),
        decreases paths.len() - i,
    {
        assert(all.take(i + 1).drop_last() =~= all.take(i as int));
        assert(all.take(i + 1).last() == paths@[i as int]@);
        let p = resolve_plugin_path(root, paths[i].as_str());
        if let Some(PathState::Directory(_)) = facts.get(p.as_str()) {
            add_to(&mut out, p.as_str());
        }
        i = i + 1;
    }
    assert(all.take(all.len() as int) =~= all);
    out
}

fn find_files(facts: &Table<PathState>, root: &str, paths: &Option<Vec<String>>, ext: &str) -> (r:
    Vec<String>)
    ensures
        strs(r@) == found_files(facts@, root@, listed(*paths), ext@),
{
    let mut out = no_strings();
    if let Some(v) = paths {
        let ghost all = strs(v@);
        let mut i: usize = 0;
        assert(all.take(0) =~= Seq::<Seq<char>>::empty());
        while i < v.len()
            invariant
                all == strs(v@),
                i <= v.len(),
                strs(out@) == found_files(facts@, root@, all.take(i as int), ext@),
            decreases v.len() - i,
        {
            assert(all.take(i + 1).drop_last() =~= all.take(i as int));
            assert(all.take(i + 1).last() == v@[i as int]@);
            let p = resolve_plugin_path(root, v[i].as_str());
            match facts.get(p.as_str()) {
                Some(PathState::File) => {
                    add_to(&mut out, p.as_str());
                },
                Some(PathState::Directory(children)) => {
                    let more = with_ext(children, ext);
                    extend(&mut out, more);
                },
                Some(PathState::Missing) => {},
                None => {},
            }
            i = i + 1;
        }
        assert(all.take(all.len() as int) =~= all);
    }
    out
}

fn find_first(facts: &Table<PathState>, root: &str, paths: &Option<Vec<String>>) -> (r: Option<
    String,
>)
    ensures
        opt_str(r) == found_first(facts@, root@, *paths),
{
    match paths {
        Some(v) => {
            if v.len() == 0 {
                return None;
            }
            let p = resolve_plugin_path(root, v[0].as_str());
            match facts.get(p.as_str()) {
                Some(PathState::File) => Some(p),
                _ => None,
            }
        },
        None => None,
    }
}

/// What a plugin brings, given what stands at the paths that its manifest names.
pub fn find_components(c: &PluginComponents, root: &str, facts: &Table<PathState>) -> (r:
    ResolvedComponents)
    ensures
        r@ == components_of(*c, root@, facts@),
{
    let skill_dirs = match &c.skills {
        Some(v) => find_dirs(facts, root, v),
        None => {
            let p = join_path(root, "skills");
            let mut out = no_strings();
            if let Some(PathState::Directory(_)) = facts.get(p.as_str()) {
                add_to(&mut out, p.as_str());
                assert(strs(out@) =~= seq![p@]);
            }
            out
        },
    };
    let mcp_config_file = match &c.mcp_servers {
        Some(v) => find_first(facts, root, &c.mcp_servers),
        None => {
            let p = join_path(root, ".mcp.json");
            match facts.get(p.as_str()) {
                Some(PathState::File) => Some(p),
                _ => None,
            }
        },
    };
    ResolvedComponents {
        skill_dirs,
        agent_files: find_files(facts, root, &c.agents, "md"),
        hooks_file: find_first(facts, root, &c.hooks),
        mcp_config_file,
        lsp_config_file: find_first(facts, root, &c.lsp_servers),
        monitors_file: find_first(facts, root, &c.monitors),
        theme_files: find_files(facts, root, &c.themes, "json"),
        output_style_files: find_files(facts, root, &c.output_styles, "md"),
    }
}

/// The paths below a directory.
pub open spec fn all_below(root: Seq<char>, paths: Seq<Seq<char>>) -> Seq<Seq<char>> {
    paths.map_values(|p: Seq<char>| below(root, p))
}

/// The paths that are looked at to find out what a plugin brings.
pub open spec fn paths_of(c: PluginComponents, root: Seq<char>) -> Seq<Seq<char>> {
    seq![joined_path(root, "skills"@), joined_path(root, ".mcp.json"@)] + all_below(
        root,
        listed(c.skills),
    ) + all_below(root, listed(c.agents)) + all_below(root, listed(c.hooks)) + all_below(
        root,
        listed(c.mcp_servers),
    ) + all_below(root, listed(c.lsp_servers)) + all_below(root, listed(c.monitors)) + all_below(
        root,
        listed(c.themes),
    ) + all_below(root, listed(c.output_styles))
}

fn add_below(out: &mut Vec<String>, root: &str, paths: &Option<Vec<String>>)
    ensures
        strs(final(out)@) == strs(old(out)@) + all_below(root@, listed(*paths)),
{
    let ghost base = strs(out@);
    match paths {
        Some(v) => {
            let ghost all = all_below(root@, strs(v@));
            let mut i: usize = 0;
            assert(base + all.take(0) =~= base);
            while i < v.len()
                invariant
                    all == all_below(root@, strs(v@)),
                    i <= v.len(),
                    strs(out@) == base + all.take(i as int),
                decreases v.len() - i,
            {
                let p = resolve_plugin_path(root, v[i].as_str());
                assert(all[i as int] == p@);
                assert((base + all.take(i as int)).push(p@) =~= base + all.take(i + 1));
                add_to(out, p.as_str());
                i = i + 1;
            }
            assert(all.take(all.len() as int) =~= all);
        },
        None => {
            assert(base + all_below(root@, Seq::<Seq<char>>::empty()) =~= base);
        },
    }
}

/// The paths that are looked at to find out what a plugin brings.
pub fn component_paths(c: &PluginComponents, root: &str) -> (r: Vec<String>)
    ensures
        strs(r@) == paths_of(*c, root@),
{
    let mut out = no_strings();
    add_to(&mut out, join_path(root, "skills").as_str());
    add_to(&mut out, join_path(root, ".mcp.json").as_str());
    assert(strs(out@) =~= seq![joined_path(root@, "skills"@), joined_path(root@, ".mcp.json"@)]);
    add_below(&mut out, root, &c.skills);
    add_below(&mut out, root, &c.agents);
    add_below(&mut out, root, &c.hooks);
    add_below(&mut out, root, &c.mcp_servers);
    add_below(&mut out, root, &c.lsp_servers);
    add_below(&mut out, root, &c.monitors);
    add_below(&mut out, root, &c.themes);
    add_below(&mut out, root, &c.output_styles);
    out
}

// ── Order of loading ────────────────────────────────────────────────────────────────────────

/// Whether an order lists every plugin once, each behind the plugins that it needs.
pub open spec fn is_dependency_order(
    deps: Map<Seq<char>, Seq<Seq<char>>>,
    order: Seq<Seq<char>>,
) -> bool {
    &&& order.no_duplicates()
    &&& order.to_set() == deps.dom()
    &&& forall|i: int, k: int|
        0 <= i < order.len() && 0 <= k < deps[order[i]].len() ==> order.take(i).contains(
            #[trigger] deps[order[i]][k],
        )
}

/// Whether a plugin needs one that is not installed.
pub open spec fn needs_missing(
    deps: Map<Seq<char>, Seq<Seq<char>>>,
    id: Seq<char>,
    dep: Seq<char>,
) -> bool {
    deps.contains_key(id) && deps[id].contains(dep) && !deps.contains_key(dep)
}

/// Whether everything that item `i` needs is done.
spec fn ready(needs: Seq<Vec<usize>>, done: Seq<bool>, i: int) -> bool {
    forall|k: int| 0 <= k < needs[i]@.len() ==> done[#[trigger] needs[i]@[k] as int]
}

/// Whether an order lists every item once, each behind what it needs.
spec fn orders(needs: Seq<Vec<usize>>, order: Seq<int>) -> bool {
    &&& crate::table::is_permutation(order, needs.len() as int)
    &&& forall|p: int, k: int|
        0 <= p < order.len() && 0 <= k < needs[order[p]]@.len() ==> order.take(p).contains(
            (#[trigger] needs[order[p]]@[k]) as int,
        )
}

spec fn as_ints(v: Seq<usize>) -> Seq<int> {
    v.map_values(|i: usize| i as int)
}

/// Whether each thing that item `i` needs is an item.
spec fn needs_items(needs: Seq<Vec<usize>>) -> bool {
    forall|i: int, k: int|
        0 <= i < needs.len() && 0 <= k < needs[i]@.len() ==> (#[trigger] needs[i]@[k]) < needs.len()
}

proof fn lemma_distinct_fit(s: Seq<int>, n: int)
    requires
        n >= 0,
        s.no_duplicates(),
        forall|i: int| 0 <= i < s.len() ==> 0 <= #[trigger] s[i] < n,
    ensures
        s.len() <= n,
{
    let full = vstd::set_lib::set_int_range(0, n);
    s.unique_seq_to_set();
    vstd::set_lib::lemma_int_range(0, n);
    assert forall|x: int| s.to_set().contains(x) implies full.contains(x) by {
        let i = choose|i: int| 0 <= i < s.len() && s[i] == x;
        assert(0 <= s[i] < n);
    }
    vstd::set_lib::lemma_len_subset(s.to_set(), full);
}

proof fn lemma_all_listed(s: Seq<int>, n: int)
    requires
        n >= 0,
        s.no_duplicates(),
        forall|i: int| 0 <= i < s.len() ==> 0 <= #[trigger] s[i] < n,
        forall|x: int| 0 <= x < n ==> s.contains(x),
    ensures
        s.len() == n,
{
    let full = vstd::set_lib::set_int_range(0, n);
    s.unique_seq_to_set();
    vstd::set_lib::lemma_int_range(0, n);
    assert(s.to_set() =~= full) by {
        assert forall|x: int| s.to_set().contains(x) == full.contains(x) by {
            if s.contains(x) {
                let i = choose|i: int| 0 <= i < s.len() && s[i] == x;
                assert(0 <= s[i] < n);
            }
        }
    }
}

/// Where nothing undone is ready, an order of all items would have everything done.
proof fn lemma_order_is_done(needs: Seq<Vec<usize>>, done: Seq<bool>, order: Seq<int>, p: int)
    requires
        orders(needs, order),
        forall|i: int| 0 <= i < needs.len() && !done[i] ==> !ready(needs, done, i),
        0 <= p < order.len(),
    ensures
        done[order[p]],
    decreases p,
{
    let i = order[p];
    assert forall|k: int| 0 <= k < needs[i]@.len() implies done[
        #[trigger] needs[i]@[k] as int
    ] by {
        let d = needs[order[p]]@[k] as int;
        assert(order.take(p).contains(d));
        let q = choose|q: int| 0 <= q < order.take(p).len() && order.take(p)[q] == d;
        assert(order[q] == d);
        lemma_order_is_done(needs, done, order, q);
    }
    assert(ready(needs, done, i));
}

fn mentions(v: &Vec<usize>, x: usize) -> (r: bool)
    ensures
        r == v@.contains(x),
{
    let mut i: usize = 0;
    while i < v.len()
        invariant
            i <= v.len(),
            forall|k: int| 0 <= k < i ==> v@[k] != x,
        decreases v.len() - i,
    {
        if v[i] == x {
            assert(v@[i as int] == x);
            return true;
        }
        i = i + 1;
    }
    false
}

fn is_ready(needs: &Vec<Vec<usize>>, done: &Vec<bool>, i: usize) -> (r: bool)
    requires
        i < needs.len(),
        done.len() == needs.len(),
        needs_items(needs@),
    ensures
        r == ready(needs@, done@, i as int),
{
    let mut k: usize = 0;
    while k < needs[i].len()
        invariant
            i < needs.len(),
            done.len() == needs.len(),
            needs_items(needs@),
            k <= needs@[i as int]@.len(),
            forall|j: int| 0 <= j < k ==> done@[#[trigger] needs@[i as int]@[j] as int],
        decreases needs@[i as int]@.len() - k,
    {
        assert(needs@[i as int]@[k as int] < needs.len());
        if !done[needs[i][k]] {
            assert(!done@[needs@[i as int]@[k as int] as int]);
            return false;
        }
        k = k + 1;
    }
    true
}

/// What holds between two items of work: `order` is done and lists each item behind what it needs,
/// and `stack` holds what is ready.
spec fn working(
    needs: Seq<Vec<usize>>,
    done: Seq<bool>,
    stack: Seq<usize>,
    order: Seq<usize>,
) -> bool {
    let n = needs.len();
    &&& done.len() == n
    &&& as_ints(order).no_duplicates()
    &&& forall|p: int| 0 <= p < order.len() ==> (#[trigger] order[p]) < n && done[order[p] as int]
    &&& forall|i: int| 0 <= i < n && done[i] ==> #[trigger] as_ints(order).contains(i)
    &&& as_ints(stack).no_duplicates()
    &&& forall|s: int|
        0 <= s < stack.len() ==> (#[trigger] stack[s]) < n && !done[stack[s] as int] && ready(
            needs,
            done,
            stack[s] as int,
        )
    &&& forall|i: int|
        0 <= i < n && !done[i] && #[trigger] ready(needs, done, i) ==> as_ints(stack).contains(i)
    &&& forall|p: int, k: int|
        0 <= p < order.len() && 0 <= k < needs[order[p] as int]@.len() ==> as_ints(order).take(
            p,
        ).contains((#[trigger] needs[order[p] as int]@[k]) as int)
}

/// An order of the items, each behind what it needs, or nothing where there is none.
///
/// Items that need nothing begin, the last of them first; an item follows once the last thing that
/// it needs is done.
fn order_items(needs: &Vec<Vec<usize>>) -> (r: Option<Vec<usize>>)
    requires
        needs_items(needs@),
    ensures
        match r {
            Some(o) => orders(needs@, as_ints(o@)),
            None => !exists|o: Seq<int>| orders(needs@, o),
        },
{
    let n: usize = needs.len();
    let mut done: Vec<bool> = Vec::new();
    let mut stack: Vec<usize> = Vec::new();
    let mut order: Vec<usize> = Vec::new();
    let mut i: usize = 0;
    while i < n
        invariant
            n == needs.len(),
            i <= n,
            done.len() == i,
            forall|k: int| 0 <= k < i ==> !#[trigger] done@[k],
        decreases n - i,
    {
        done.push(false);
        i = i + 1;
    }
    i = 0;
    while i < n
        invariant
            n == needs.len() == done.len(),
            forall|k: int| 0 <= k < n ==> !#[trigger] done@[k],
            needs_items(needs@),
            i <= n,
            as_ints(stack@).no_duplicates(),
            forall|s: int|
                0 <= s < stack.len() ==> (#[trigger] stack@[s]) < i && ready(
                    needs@,
                    done@,
                    stack@[s] as int,
                ),
            forall|k: int|
                0 <= k < i && #[trigger] ready(needs@, done@, k) ==> as_ints(stack@).contains(k),
        decreases n - i,
    {
        let ghost before = stack@;
        if needs[i].len() == 0 {
            stack.push(i);
            proof {
                assert(ready(needs@, done@, i as int));
                lemma_pushed(before, i);
            }
        } else {
            assert(!ready(needs@, done@, i as int)) by {
                let d = needs@[i as int]@[0] as int;
                assert(!done@[d]);
            }
        }
        i = i + 1;
    }
    loop
        invariant
            n == needs.len(),
            needs_items(needs@),
            working(needs@, done@, stack@, order@),
            order@.len() <= n,
        ensures
            working(needs@, done@, stack@, order@),
            stack@.len() == 0,
        decreases n - order@.len(),
    {
        let ghost stack0 = stack@;
        let v: usize = match stack.pop() {
            Some(v) => v,
            None => {
                break;
            },
        };
        let ghost done0 = done@;
        let ghost order0 = order@;
        let ghost rest = stack@;
        assert(stack0 == rest.push(v));
        assert(stack0[rest.len() as int] == v);
        order.push(v);
        done.set(v as usize, true);
        proof {
            lemma_popped(stack0, rest, v);
            lemma_step(needs@, done0, stack0, order0, v);
            assert forall|s: int| 0 <= s < rest.len() implies (#[trigger] rest[s]) < n
                && !done@[rest[s] as int] && ready(needs@, done@, rest[s] as int) && ready(
                needs@,
                done0,
                rest[s] as int,
            ) by {
                assert(stack0[s] == rest[s]);
                assert(as_ints(rest)[s] == rest[s]);
                assert(rest[s] != v);
            }
        }
        let mut j: usize = 0;
        while j < n
            invariant
                n == needs.len(),
                needs_items(needs@),
                v < n,
                done@ == done0.update(v as int, true),
                done0.len() == n,
                !done0[v as int],
                j <= n,
                as_ints(stack@).no_duplicates(),
                forall|s: int|
                    0 <= s < stack@.len() ==> (#[trigger] stack@[s]) < n && !done@[stack@[s] as int]
                        && ready(needs@, done@, stack@[s] as int) && (ready(
                        needs@,
                        done0,
                        stack@[s] as int,
                    ) || stack@[s] < j),
                forall|k: int|
                    0 <= k < n && !done@[k] && #[trigger] ready(needs@, done0, k) ==> as_ints(
                        stack@,
                    ).contains(k),
                forall|k: int|
                    0 <= k < j && !done@[k] && #[trigger] ready(needs@, done@, k) ==> as_ints(
                        stack@,
                    ).contains(k),
            decreases n - j,
        {
            let ghost before = stack@;
            if !done[j] && mentions(&needs[j], v) && is_ready(needs, &done, j) {
                proof {
                    let k = choose|k: int|
                        0 <= k < needs@[j as int]@.len() && needs@[j as int]@[k] == v;
                    assert(!done0[needs@[j as int]@[k] as int]);
                    assert(!ready(needs@, done0, j as int));
                    assert(!as_ints(before).contains(j as int)) by {
                        if as_ints(before).contains(j as int) {
                            let s = choose|s: int|
                                0 <= s < as_ints(before).len() && as_ints(before)[s] == j;
                            assert(before[s] == j);
                        }
                    }
                }
                stack.push(j);
                proof {
                    lemma_pushed(before, j);
                }
            } else {
                proof {
                    if !done@[j as int] && ready(needs@, done@, j as int) {
                        assert(ready(needs@, done0, j as int)) by {
                            assert forall|k: int| 0 <= k < needs@[j as int]@.len() implies done0[
                                #[trigger] needs@[j as int]@[k] as int
                            ] by {
                                assert(done@[needs@[j as int]@[k] as int]);
                                assert(needs@[j as int]@[k] != v);
                            }
                        }
                    }
                }
            }
            j = j + 1;
        }
        proof {
            lemma_distinct_fit(as_ints(order@), n as int);
        }
    }
    if order.len() == n {
        proof {
            assert forall|i: int| 0 <= i < n implies 0 <= #[trigger] as_ints(order@)[i] < n by {
                assert(order@[i] < n);
            }
            assert(orders(needs@, as_ints(order@)));
        }
        Some(order)
    } else {
        proof {
            assert forall|i: int| 0 <= i < n && !done@[i] implies !ready(needs@, done@, i) by {
                if ready(needs@, done@, i) {
                    assert(as_ints(stack@).contains(i));
                }
            }
            if exists|o: Seq<int>| orders(needs@, o) {
                let o = choose|o: Seq<int>| orders(needs@, o);
                crate::table::lemma_permutation_covers(o, n as int);
                assert forall|x: int| 0 <= x < n implies as_ints(order@).contains(x) by {
                    assert(o.contains(x));
                    let p = choose|p: int| 0 <= p < o.len() && o[p] == x;
                    lemma_order_is_done(needs@, done@, o, p);
                    assert(done@[x]);
                }
                assert forall|p: int| 0 <= p < order@.len() implies 0 <= #[trigger] as_ints(
                    order@,
                )[p] < n by {
                    assert(order@[p] < n);
                }
                lemma_all_listed(as_ints(order@), n as int);
            }
        }
        None
    }
}

proof fn lemma_pushed(before: Seq<usize>, x: usize)
    requires
        as_ints(before).no_duplicates(),
        !as_ints(before).contains(x as int),
    ensures
        as_ints(before.push(x)).no_duplicates(),
        as_ints(before.push(x)).contains(x as int),
        forall|k: int| #[trigger]
            as_ints(before).contains(k) ==> as_ints(before.push(x)).contains(k),
{
    let now = as_ints(before.push(x));
    assert(now =~= as_ints(before).push(x as int));
    assert(now[before.len() as int] == x);
    assert forall|k: int| #[trigger] as_ints(before).contains(k) implies now.contains(k) by {
        let s = choose|s: int| 0 <= s < as_ints(before).len() && as_ints(before)[s] == k;
        assert(now[s] == k);
    }
    assert forall|a: int, b: int| 0 <= a < b < now.len() implies now[a] != now[b] by {
        if b == before.len() {
            assert(as_ints(before)[a] == now[a]);
        } else {
            assert(as_ints(before)[a] == now[a]);
            assert(as_ints(before)[b] == now[b]);
        }
    }
}

proof fn lemma_popped(all: Seq<usize>, rest: Seq<usize>, x: usize)
    requires
        all == rest.push(x),
        as_ints(all).no_duplicates(),
    ensures
        as_ints(rest).no_duplicates(),
        !as_ints(rest).contains(x as int),
        forall|k: int| #[trigger] as_ints(all).contains(k) && k != x ==> as_ints(rest).contains(k),
{
    assert(as_ints(all) =~= as_ints(rest).push(x as int));
    assert forall|a: int, b: int| 0 <= a < b < as_ints(rest).len() implies as_ints(rest)[a]
        != as_ints(rest)[b] by {
        assert(as_ints(all)[a] != as_ints(all)[b]);
    }
    if as_ints(rest).contains(x as int) {
        let s = choose|s: int| 0 <= s < as_ints(rest).len() && as_ints(rest)[s] == x;
        assert(as_ints(all)[s] == as_ints(all)[rest.len() as int]);
    }
    assert forall|k: int| #[trigger] as_ints(all).contains(k) && k != x implies as_ints(
        rest,
    ).contains(k) by {
        let s = choose|s: int| 0 <= s < as_ints(all).len() && as_ints(all)[s] == k;
        assert(as_ints(rest)[s] == k);
    }
}

/// Finishing a ready item keeps what holds of the order, and what was ready stays ready.
proof fn lemma_step(
    needs: Seq<Vec<usize>>,
    done: Seq<bool>,
    stack: Seq<usize>,
    order: Seq<usize>,
    v: usize,
)
    requires
        needs_items(needs),
        working(needs, done, stack, order),
        stack.len() > 0,
        v == stack.last(),
    ensures
        v < needs.len(),
        !done[v as int],
        as_ints(order.push(v)).no_duplicates(),
        forall|p: int|
            0 <= p < order.push(v).len() ==> (#[trigger] order.push(v)[p]) < needs.len()
                && done.update(v as int, true)[order.push(v)[p] as int],
        forall|i: int|
            0 <= i < needs.len() && done.update(v as int, true)[i] ==> #[trigger] as_ints(
                order.push(v),
            ).contains(i),
        forall|p: int, k: int|
            0 <= p < order.push(v).len() && 0 <= k < needs[order.push(v)[p] as int]@.len()
                ==> as_ints(order.push(v)).take(p).contains(
                (#[trigger] needs[order.push(v)[p] as int]@[k]) as int,
            ),
        forall|i: int|
            0 <= i < needs.len() && #[trigger] ready(needs, done, i) ==> ready(
                needs,
                done.update(v as int, true),
                i,
            ),
{
    assert(stack[stack.len() - 1] == v);
    let now = order.push(v);
    let done1 = done.update(v as int, true);
    assert(!as_ints(order).contains(v as int)) by {
        if as_ints(order).contains(v as int) {
            let p = choose|p: int| 0 <= p < as_ints(order).len() && as_ints(order)[p] == v;
            assert(done[order[p] as int]);
        }
    }
    lemma_pushed(order, v);
    assert forall|p: int| 0 <= p < now.len() implies (#[trigger] now[p]) < needs.len() && done1[
        now[p] as int
    ] by {
        if p < order.len() {
            assert(now[p] == order[p]);
        }
    }
    assert forall|i: int| 0 <= i < needs.len() && done1[i] implies #[trigger] as_ints(now).contains(
        i,
    ) by {
        if i != v {
            assert(as_ints(order).contains(i));
        }
    }
    assert forall|p: int, k: int|
        0 <= p < now.len() && 0 <= k < needs[now[p] as int]@.len() implies as_ints(now).take(
        p,
    ).contains((#[trigger] needs[now[p] as int]@[k]) as int) by {
        if p < order.len() {
            assert(now[p] == order[p]);
            assert(as_ints(now).take(p) =~= as_ints(order).take(p));
            assert(as_ints(order).take(p).contains(needs[order[p] as int]@[k] as int));
        } else {
            assert(as_ints(now).take(p) =~= as_ints(order));
            let d = needs[v as int]@[k] as int;
            assert(done[d]);
            assert(as_ints(order).contains(d));
        }
    }
    assert forall|i: int| 0 <= i < needs.len() && #[trigger] ready(needs, done, i) implies ready(
        needs,
        done1,
        i,
    ) by {
        assert forall|k: int| 0 <= k < needs[i]@.len() implies done1[
            #[trigger] needs[i]@[k] as int
        ] by {
            assert(needs[i]@[k] < needs.len());
            assert(done[needs[i]@[k] as int]);
        }
    }
}

// ── Addresses of repositories ───────────────────────────────────────────────────────────────

/// What stands before the first `p` in a text; the whole text without one.
pub open spec fn text_before(s: Seq<char>, p: Seq<char>) -> Seq<char> {
    match find_from(s, p, 0) {
        Some(i) => s.take(i),
        None => s,
    }
}

/// The host of an address behind its scheme: up to the first slash, then behind the last at sign,
/// then up to the first colon.
pub open spec fn host_of(rest: Seq<char>) -> Seq<char> {
    split(split(split(rest, '/')[0], '@').last(), ':')[0]
}

/// The number that decimal digits stand for.
pub open spec fn digits_value(s: Seq<char>) -> nat
    decreases s.len(),
{
    if s.len() == 0 {
        0
    } else {
        10 * digits_value(s.drop_last()) + (s.last() as nat - '0' as nat) as nat
    }
}

/// Whether a text is a byte in decimal notation, without zeros in front.
pub open spec fn is_octet(s: Seq<char>) -> bool {
    &&& 1 <= s.len() <= 3
    &&& forall|i: int| 0 <= i < s.len() ==> '0' <= #[trigger] s[i] && s[i] <= '9'
    &&& s.len() > 1 ==> s[0] != '0'
    &&& digits_value(s) <= 255
}

/// Whether a text is an IPv4 address in dotted decimal notation.
pub open spec fn is_ipv4(s: Seq<char>) -> bool {
    let parts = split(s, '.');
    parts.len() == 4 && is_octet(parts[0]) && is_octet(parts[1]) && is_octet(parts[2]) && is_octet(
        parts[3],
    )
}

/// Whether a host is an IPv4 address of this machine or of a private network.
pub open spec fn is_private_host(host: Seq<char>) -> bool {
    let parts = split(host, '.');
    let a = digits_value(parts[0]);
    let b = digits_value(parts[1]);
    is_ipv4(host) && (a == 127 || a == 10 || (a == 172 && 16 <= b < 32) || (a == 192 && b == 168)
        || a == 0)
}

/// Why a repository is not cloned; nothing where it may be.
pub open spec fn clone_refusal(url: Seq<char>) -> Option<Seq<char>> {
    if !"https://"@.is_prefix_of(url) {
        Some(
            "Only https:// URLs are allowed for git clone (received: "@ + text_before(url, "://"@)
                + "). file://, ssh://, git://, and http:// are rejected for security."@,
        )
    } else if is_private_host(host_of(url.subrange(8, url.len() as int))) {
        Some(
            "Git clone URL '"@ + url
                + "' resolves to a private IP address, rejected for security"@,
        )
    } else {
        None
    }
}

/// The value of a byte in decimal notation.
fn octet(s: &str) -> (r: Option<u32>)
    ensures
        match r {
            Some(n) => is_octet(s@) && n == digits_value(s@) && n <= 255,
            None => !is_octet(s@),
        },
{
    let v = chars_of(s);
    if v.len() == 0 || v.len() > 3 || (v.len() > 1 && v[0] == '0') {
        return None;
    }
    let mut n: u32 = 0;
    let mut i: usize = 0;
    assert(s@.take(0) =~= Seq::<char>::empty());
    while i < v.len()
        invariant
            v@ == s@,
            v.len() <= 3,
            i <= v.len(),
            n == digits_value(s@.take(i as int)),
            i == 0 ==> n == 0,
            i == 1 ==> n < 10,
            i == 2 ==> n < 100,
            i == 3 ==> n < 1000,
            forall|k: int| 0 <= k < i ==> '0' <= #[trigger] s@[k] && s@[k] <= '9',
        decreases v.len() - i,
    {
        let c = v[i];
        if !('0' <= c && c <= '9') {
            assert(!('0' <= s@[i as int] && s@[i as int] <= '9'));
            return None;
        }
        assert(s@.take(i + 1).drop_last() =~= s@.take(i as int));
        assert(s@.take(i + 1).last() == c);
        n = 10 * n + (c as u32 - '0' as u32);
        i = i + 1;
    }
    assert(s@.take(s@.len() as int) =~= s@);
    if n <= 255 {
        Some(n)
    } else {
        None
    }
}

fn on_private_host(host: &str) -> (r: bool)
    ensures
        r == is_private_host(host@),
{
    let parts = split_on(host, '.');
    let ghost all = split(host@, '.');
    assert(all == strs(parts@));
    if parts.len() != 4 {
        return false;
    }
    assert(all[0] == parts@[0]@ && all[1] == parts@[1]@ && all[2] == parts@[2]@ && all[3]
        == parts@[3]@);
    let a: u32 = match octet(parts[0].as_str()) {
        Some(a) => a,
        None => {
            return false;
        },
    };
    let b: u32 = match octet(parts[1].as_str()) {
        Some(b) => b,
        None => {
            return false;
        },
    };
    if octet(parts[2].as_str()).is_none() || octet(parts[3].as_str()).is_none() {
        return false;
    }
    a == 127 || a == 10 || (a == 172 && 16 <= b && b < 32) || (a == 192 && b == 168) || a == 0
}

/// Checks that a repository may be cloned: by HTTPS, and not from a private network.
pub fn check_clone_url(url: &str) -> (r: Result<(), String>)
    ensures
        match r {
            Ok(_) => clone_refusal(url@) is None,
            Err(m) => clone_refusal(url@) == Some(m@),
        },
{
    let v = chars_of(url);
    if !starts_with(url, "https://") {
        let p = chars_of("://");
        proof {
            lemma_find_from(url@, "://"@, 0);
        }
        let scheme = match find_pos(&v, &p, 0) {
            Some(i) => string_of(&v, 0, i),
            None => url.to_owned(),
        };
        assert(scheme@ =~= text_before(url@, "://"@));
        let mut m = concat(
            "Only https:// URLs are allowed for git clone (received: ",
            scheme.as_str(),
        );
        m.push_str("). file://, ssh://, git://, and http:// are rejected for security.");
        return Err(m);
    }
    proof {
        reveal_strlit("https://");
    }
    let rest = string_of(&v, 8, v.len());
    let parts = split_on(rest.as_str(), '/');
    proof {
        lemma_split_some(rest@, '/');
        assert(strs(parts@)[0] == parts@[0]@);
    }
    let users = split_on(parts[0].as_str(), '@');
    proof {
        lemma_split_some(parts@[0]@, '@');
        assert(strs(users@).last() == users@.last()@);
    }
    let ports = split_on(users[users.len() - 1].as_str(), ':');
    proof {
        lemma_split_some(users@.last()@, ':');
        assert(strs(ports@)[0] == ports@[0]@);
    }
    if on_private_host(ports[0].as_str()) {
        let mut m = concat("Git clone URL '", url);
        m.push_str("' resolves to a private IP address, rejected for security");
        return Err(m);
    }
    Ok(())
}

// ── Registry ────────────────────────────────────────────────────────────────────────────────

/// The names that are kept, in their order.
pub open spec fn picked(
    names: Seq<Seq<char>>,
    keep: spec_fn(Seq<char>) -> bool,
) -> Seq<Seq<char>>
    decreases names.len(),
{
    if names.len() == 0 {
        Seq::empty()
    } else if keep(names.last()) {
        picked(names.drop_last(), keep).push(names.last())
    } else {
        picked(names.drop_last(), keep)
    }
}

proof fn lemma_picked(names: Seq<Seq<char>>, keep: spec_fn(Seq<char>) -> bool)
    requires
        increasing(names),
    ensures
        increasing(picked(names, keep)),
        forall|n: Seq<char>| #[trigger]
            picked(names, keep).contains(n) <==> names.contains(n) && keep(n),
    decreases names.len(),
{
    if names.len() > 0 {
        let init = names.drop_last();
        let last = names.last();
        lemma_picked(init, keep);
        let rest = picked(init, keep);
        assert(names =~= init.push(last));
        assert forall|n: Seq<char>| #[trigger] picked(names, keep).contains(n) <==> names.contains(n)
            && keep(n) by {
            if init.contains(n) {
                assert(names[init.index_of(n)] == n);
            }
            if n == last {
                assert(names[names.len() - 1] == n);
            }
            if keep(last) {
                assert(rest.push(last)[rest.len() as int] == last);
                if rest.contains(n) {
                    assert(rest.push(last)[rest.index_of(n)] == n);
                }
            }
        }
        if keep(last) {
            let all = rest.push(last);
            assert forall|i: int, j: int| 0 <= i < j < all.len() implies lex_lt(
                #[trigger] all[i],
                #[trigger] all[j],
            ) by {
                if j == rest.len() {
                    assert(rest.contains(rest[i]));
                    assert(names[init.index_of(rest[i])] == rest[i]);
                }
            }
        }
    }
}

/// Whether a plugin matches a query in lower case: by its name, its description or a keyword.
pub open spec fn matches_query(m: PluginManifest, q: Seq<char>) -> bool {
    ||| contains(lower_text(m.name@), q)
    ||| contains(lower_text(m.description@), q)
    ||| exists|i: int|
        0 <= i < m.keywords@.len() && contains(lower_text((#[trigger] m.keywords@[i])@), q)
}

/// Whether a plugin matches a query in lower case.
pub fn manifest_matches(m: &PluginManifest, q: &str) -> (r: bool)
    ensures
        r == matches_query(*m, q@),
{
    if contains_str(to_lower(m.name.as_str()).as_str(), q) {
        return true;
    }
    if contains_str(to_lower(m.description.as_str()).as_str(), q) {
        return true;
    }
    let mut i: usize = 0;
    while i < m.keywords.len()
        invariant
            i <= m.keywords.len(),
            !contains(lower_text(m.name@), q@),
            !contains(lower_text(m.description@), q@),
            forall|k: int|
                0 <= k < i ==> !contains(lower_text((#[trigger] m.keywords@[k])@), q@),
        decreases m.keywords.len() - i,
    {
        if contains_str(to_lower(m.keywords[i].as_str()).as_str(), q) {
            assert(contains(lower_text(m.keywords@[i as int]@), q@));
            return true;
        }
        i = i + 1;
    }
    false
}

/// The plugins with the saved choices of the user.
pub open spec fn restored(
    plugins: Map<Seq<char>, PluginEntry>,
    saved: Seq<(String, bool)>,
) -> Map<Seq<char>, PluginEntry>
    decreases saved.len(),
{
    if saved.len() == 0 {
        plugins
    } else {
        let before = restored(plugins, saved.drop_last());
        let id = saved.last().0@;
        if before.contains_key(id) {
            before.insert(id, PluginEntry { enabled: saved.last().1, ..before[id] })
        } else {
            before
        }
    }
}

fn not_installed(plugin_id: &str) -> (r: String)
    ensures
        r@ == "Plugin '"@ + plugin_id@ + "' is not installed"@,
{
    let mut m = concat("Plugin '", plugin_id);
    m.push_str("' is not installed");
    m
}

fn position_of(names: &Vec<String>, name: &str) -> (r: Option<usize>)
    ensures
        match r {
            Some(i) => i < names.len() && names@[i as int]@ == name@,
            None => !strs(names@).contains(name@),
        },
{
    let mut i: usize = 0;
    while i < names.len()
        invariant
            i <= names.len(),
            forall|k: int| 0 <= k < i ==> (#[trigger] names@[k])@ != name@,
        decreases names.len() - i,
    {
        if same(names[i].as_str(), name) {
            return Some(i);
        }
        i = i + 1;
    }
    assert forall|k: int| 0 <= k < strs(names@).len() implies strs(names@)[k] != name@ by {
        assert(names@[k]@ != name@);
    }
    None
}

/// What is left to do after a plugin is taken out of the registry.
pub struct Removal {
    /// The directory of the plugin.
    pub root: String,
    /// The directory of its data, where that goes too.
    pub data_dir: Option<String>,
}

/// Whether a directory of a plugin is copied when the plugin is installed.
pub fn copies_directory(name: &str) -> (r: bool)
    ensures
        r == !".git"@.is_prefix_of(name@),
{
    !starts_with(name, ".git")
}

/// The refusal of a directory that holds no manifest.
pub fn no_manifest(src: &str) -> (r: String)
    ensures
        r@ == "Source directory "@ + src@ + " does not contain .echo-plugin/manifest.yaml"@,
{
    let mut m = concat("Source directory ", src);
    m.push_str(" does not contain .echo-plugin/manifest.yaml");
    m
}

/// Checks that a manifest has no errors.
pub fn check_manifest(errors: &Vec<String>) -> (r: Result<(), String>)
    ensures
        match r {
            Ok(_) => errors@.len() == 0,
            Err(m) => errors@.len() > 0 && m@ == "Manifest validation failed: "@ + join(
                strs(errors@),
                "; "@,
            ),
        },
{
    if errors.len() == 0 {
        Ok(())
    } else {
        Err(concat("Manifest validation failed: ", joined(errors, "; ").as_str()))
    }
}

/// The refusal of a plugin whose directory exists already.
pub fn already_installed(plugin_id: &str, dest: &str) -> (r: String)
    ensures
        r@ == "Plugin '"@ + plugin_id@ + "' is already installed at "@ + dest@,
{
    let mut m = concat("Plugin '", plugin_id);
    m.push_str("' is already installed at ");
    m.push_str(dest);
    m
}

/// The path of the manifest in the directory of a plugin.
pub fn manifest_path(dir: &str) -> (r: String)
    ensures
        r@ == joined_path(joined_path(dir@, ".echo-plugin"@), "manifest.yaml"@),
{
    join_path(join_path(dir, ".echo-plugin").as_str(), "manifest.yaml")
}

impl PluginRegistry {
    #[verifier::type_invariant]
    spec fn named_by_manifest(&self) -> bool {
        forall|n: Seq<char>| #[trigger]
            self.plugins@.contains_key(n) ==> self.plugins@[n].manifest.name@ == n
    }

    /// The installed plugins by name.
    pub closed spec fn plugins(&self) -> Map<Seq<char>, PluginEntry> {
        self.plugins@
    }

    /// Where the registry is saved.
    pub closed spec fn state_path(&self) -> Seq<char> {
        self.state_file@
    }

    /// The directory of the data of all plugins.
    pub closed spec fn data_root(&self) -> Seq<char> {
        self.data_dir@
    }

    /// The directory of the project.
    pub closed spec fn project(&self) -> Option<Seq<char>> {
        opt_str(self.project_root)
    }

    /// What each plugin needs.
    pub open spec fn dependencies(&self) -> Map<Seq<char>, Seq<Seq<char>>> {
        self.plugins().map_values(
            |e: PluginEntry| dependency_names(e.manifest.dependencies@),
        )
    }

    /// Whether everything but the plugins is as in `other`.
    pub open spec fn same_places(&self, other: PluginRegistry) -> bool {
        &&& self.state_path() == other.state_path()
        &&& self.data_root() == other.data_root()
        &&& self.project() == other.project()
    }

    /// An empty registry below the directory of the agent.
    pub fn new(agent_dir: &str, project_root: Option<String>) -> (r: PluginRegistry)
        ensures
            r.plugins() == Map::<Seq<char>, PluginEntry>::empty(),
            r.state_path() == joined_path(
                joined_path(agent_dir@, "plugins"@),
                "registry.json"@,
            ),
            r.data_root() == joined_path(joined_path(agent_dir@, "plugins"@), "data"@),
            r.project() == opt_str(project_root),
    {
        let base = join_path(agent_dir, "plugins");
        PluginRegistry {
            plugins: Table::new(),
            state_file: join_path(base.as_str(), "registry.json"),
            data_dir: join_path(base.as_str(), "data"),
            project_root,
        }
    }

    /// An empty registry with its places.
    pub fn with_paths(state_file: String, data_dir: String, project_root: Option<String>) -> (r:
        PluginRegistry)
        ensures
            r.plugins() == Map::<Seq<char>, PluginEntry>::empty(),
            r.state_path() == state_file@,
            r.data_root() == data_dir@,
            r.project() == opt_str(project_root),
    {
        PluginRegistry { plugins: Table::new(), state_file, data_dir, project_root }
    }

    /// Where the registry is saved.
    pub fn state_file(&self) -> (r: &str)
        ensures
            r@ == self.state_path(),
    {
        self.state_file.as_str()
    }

    /// Forgets all plugins.
    pub fn clear(&mut self)
        ensures
            final(self).plugins() == Map::<Seq<char>, PluginEntry>::empty(),
            final(self).same_places(*old(self)),
    {
        self.plugins = Table::new();
    }

    /// The plugins with those that were found in a directory, one after the other.
    pub open spec fn with_found(
        plugins: Map<Seq<char>, PluginEntry>,
        scope: PluginScope,
        found: Seq<(PluginManifest, String)>,
    ) -> Map<Seq<char>, PluginEntry>
        decreases found.len(),
    {
        if found.len() == 0 {
            plugins
        } else {
            let (manifest, root) = found.last();
            PluginRegistry::with_found(plugins, scope, found.drop_last()).insert(
                manifest.name@,
                PluginEntry { manifest, root, scope, enabled: true, resolved_components: None },
            )
        }
    }

    /// Adds the plugins that were found in the directory of a scope, and tells how many there were.
    pub fn scan_scope_dir(
        &mut self,
        scope: PluginScope,
        found: Vec<(PluginManifest, String)>,
    ) -> (r: usize)
        ensures
            r == found@.len(),
            final(self).plugins() == PluginRegistry::with_found(
                old(self).plugins(),
                scope,
                found@,
            ),
            final(self).same_places(*old(self)),
    {
        let n: usize = found.len();
        let ghost all = found@;
        let mut later = reversed(found);
        assert(all.take(0) =~= Seq::<(PluginManifest, String)>::empty());
        assert(later@.reverse() =~= all);
        while later.len() > 0
            invariant
                n == all.len(),
                later@.len() <= n,
                forall|k: int|
                    0 <= k < later@.len() ==> #[trigger] later@[k] == all[n - 1 - k],
                self.plugins() == PluginRegistry::with_found(
                    old(self).plugins(),
                    scope,
                    all.take(n - later@.len()),
                ),
                self.same_places(*old(self)),
            decreases later.len(),
        {
            let ghost done = n - later@.len();
            let ghost l = later@;
            if let Some((manifest, root)) = later.pop() {
                assert(l[l.len() - 1] == all[done]);
                assert forall|k: int| 0 <= k < later@.len() implies #[trigger] later@[k] == all[n
                    - 1 - k] by {
                    assert(l[k] == all[n - 1 - k]);
                }
                assert(all.take(done + 1).drop_last() =~= all.take(done));
                assert(all.take(done + 1).last() == all[done]);
                self.add(manifest, root, scope);
            }
        }
        assert(all.take(n as int) =~= all);
        n
    }

    /// Adds a plugin, in place of one with the same name; it is used, and what it brings is not
    /// resolved.
    pub fn add(&mut self, manifest: PluginManifest, root: String, scope: PluginScope)
        ensures
            final(self).plugins() == old(self).plugins().insert(
                manifest.name@,
                PluginEntry {
                    manifest,
                    root,
                    scope,
                    enabled: true,
                    resolved_components: None,
                },
            ),
            final(self).same_places(*old(self)),
    {
        proof {
            use_type_invariant(&*self);
        }
        let id = manifest.name.clone();
        let mut t: Table<PluginEntry> = Table::new();
        core::mem::swap(&mut self.plugins, &mut t);
        let _ = t.insert(
            id,
            PluginEntry { manifest, root, scope, enabled: true, resolved_components: None },
        );
        self.plugins = t;
    }

    /// Takes a plugin out of the registry.
    pub fn uninstall(&mut self, plugin_id: &str, keep_data: bool) -> (r: Result<Removal, String>)
        ensures
            final(self).same_places(*old(self)),
            match r {
                Ok(t) => {
                    &&& old(self).plugins().contains_key(plugin_id@)
                    &&& final(self).plugins() == old(self).plugins().remove(plugin_id@)
                    &&& t.root == old(self).plugins()[plugin_id@].root
                    &&& opt_str(t.data_dir) == if keep_data {
                        None
                    } else {
                        Some(joined_path(old(self).data_root(), sanitized(plugin_id@)))
                    }
                },
                Err(m) => {
                    &&& !old(self).plugins().contains_key(plugin_id@)
                    &&& final(self).plugins() == old(self).plugins()
                    &&& m@ == "Plugin '"@ + plugin_id@ + "' is not installed"@
                },
            },
    {
        proof {
            use_type_invariant(&*self);
        }
        if !self.plugins.contains_key(plugin_id) {
            return Err(not_installed(plugin_id));
        }
        let data = self.data_dir_for(plugin_id);
        let mut t: Table<PluginEntry> = Table::new();
        core::mem::swap(&mut self.plugins, &mut t);
        let e = t.remove(plugin_id);
        self.plugins = t;
        match e {
            Some(e) => Ok(
                Removal {
                    root: e.root,
                    data_dir: if keep_data {
                        None
                    } else {
                        Some(data)
                    },
                },
            ),
            None => Err(not_installed(plugin_id)),
        }
    }

    /// Sets whether a plugin is used.
    fn set_enabled(&mut self, plugin_id: &str, enabled: bool) -> (r: Result<(), String>)
        ensures
            final(self).same_places(*old(self)),
            match r {
                Ok(_) => old(self).plugins().contains_key(plugin_id@) && final(self).plugins()
                    == old(self).plugins().insert(
                    plugin_id@,
                    PluginEntry { enabled, ..old(self).plugins()[plugin_id@] },
                ),
                Err(m) => !old(self).plugins().contains_key(plugin_id@) && final(self).plugins()
                    == old(self).plugins() && m@ == "Plugin '"@ + plugin_id@
                    + "' is not installed"@,
            },
    {
        proof {
            use_type_invariant(&*self);
        }
        if !self.plugins.contains_key(plugin_id) {
            return Err(not_installed(plugin_id));
        }
        let mut t: Table<PluginEntry> = Table::new();
        core::mem::swap(&mut self.plugins, &mut t);
        if let Some(e) = t.remove(plugin_id) {
            let mut e = e;
            e.enabled = enabled;
            let _ = t.insert(plugin_id.to_owned(), e);
        }
        self.plugins = t;
        assert(self.plugins() =~= old(self).plugins().insert(
            plugin_id@,
            PluginEntry { enabled, ..old(self).plugins()[plugin_id@] },
        ));
        Ok(())
    }

    /// Has a plugin used.
    pub fn enable(&mut self, plugin_id: &str) -> (r: Result<(), String>)
        ensures
            final(self).same_places(*old(self)),
            match r {
                Ok(_) => old(self).plugins().contains_key(plugin_id@) && final(self).plugins()
                    == old(self).plugins().insert(
                    plugin_id@,
                    PluginEntry { enabled: true, ..old(self).plugins()[plugin_id@] },
                ),
                Err(m) => !old(self).plugins().contains_key(plugin_id@) && final(self).plugins()
                    == old(self).plugins() && m@ == "Plugin '"@ + plugin_id@
                    + "' is not installed"@,
            },
    {
        self.set_enabled(plugin_id, true)
    }

    /// Has a plugin not used, without taking it out.
    pub fn disable(&mut self, plugin_id: &str) -> (r: Result<(), String>)
        ensures
            final(self).same_places(*old(self)),
            match r {
                Ok(_) => old(self).plugins().contains_key(plugin_id@) && final(self).plugins()
                    == old(self).plugins().insert(
                    plugin_id@,
                    PluginEntry { enabled: false, ..old(self).plugins()[plugin_id@] },
                ),
                Err(m) => !old(self).plugins().contains_key(plugin_id@) && final(self).plugins()
                    == old(self).plugins() && m@ == "Plugin '"@ + plugin_id@
                    + "' is not installed"@,
            },
    {
        self.set_enabled(plugin_id, false)
    }

    /// Takes over which plugins the user had used, from a saved list.
    pub fn restore(&mut self, saved: &Vec<(String, bool)>)
        ensures
            final(self).plugins() == restored(old(self).plugins(), saved@),
            final(self).same_places(*old(self)),
    {
        let mut i: usize = 0;
        assert(saved@.take(0) =~= Seq::empty());
        while i < saved.len()
            invariant
                i <= saved.len(),
                self.plugins() == restored(old(self).plugins(), saved@.take(i as int)),
                self.same_places(*old(self)),
            decreases saved.len() - i,
        {
            assert(saved@.take(i + 1).drop_last() =~= saved@.take(i as int));
            let _ = self.set_enabled(saved[i].0.as_str(), saved[i].1);
            i = i + 1;
        }
        assert(saved@.take(saved@.len() as int) =~= saved@);
    }

    /// A plugin.
    pub fn get(&self, plugin_id: &str) -> (r: Option<&PluginEntry>)
        ensures
            match r {
                Some(e) => self.plugins().contains_key(plugin_id@) && *e
                    == self.plugins()[plugin_id@] && e.manifest.name@ == plugin_id@,
                None => !self.plugins().contains_key(plugin_id@),
            },
    {
        proof {
            use_type_invariant(self);
        }
        self.plugins.get(plugin_id)
    }

    /// The plugins by name, each once.
    pub fn list(&self) -> (r: Vec<&PluginEntry>)
        ensures
            r@ == in_order(self.plugins().dom()).map_values(|n: Seq<char>| &self.plugins()[n]),
            self.plugins().dom().finite(),
            r@.len() == self.plugins().dom().len(),
            increasing(r@.map_values(|e: &PluginEntry| e.manifest.name@)),
            r@.map_values(|e: &PluginEntry| e.manifest.name@).to_set() == self.plugins().dom(),
    {
        proof {
            use_type_invariant(self);
        }
        let n: usize = self.plugins.len();
        proof {
            law_names_are_listed_in_order(self.plugins().dom());
        }
        let names = self.plugins.sorted_keys();
        let ghost all = in_order(self.plugins().dom());
        let mut out: Vec<&PluginEntry> = Vec::new();
        let mut i: usize = 0;
        while i < names.len()
            invariant
                all == strs(names@),
                all.to_set() == self.plugins().dom(),
                i <= names.len(),
                out.len() == i,
                forall|k: int| 0 <= k < i ==> *(#[trigger] out@[k]) == self.plugins()[all[k]],
            decreases names.len() - i,
        {
            assert(all[i as int] == names@[i as int]@);
            assert(all.to_set().contains(all[i as int]));
            if let Some(e) = self.plugins.get(names[i].as_str()) {
                out.push(e);
            }
            i = i + 1;
        }
        assert(out@ =~= all.map_values(|n: Seq<char>| &self.plugins()[n]));
        assert(out@.map_values(|e: &PluginEntry| e.manifest.name@) =~= all) by {
            assert forall|k: int| 0 <= k < all.len() implies (#[trigger] out@[k]).manifest.name@
                == all[k] by {
                assert(all.to_set().contains(all[k]));
            }
        }
        out
    }

    /// The plugins that are used, by name.
    pub fn list_enabled(&self) -> (r: Vec<&PluginEntry>)
        ensures
            r@ == picked(
                in_order(self.plugins().dom()),
                |n: Seq<char>| self.plugins()[n].enabled,
            ).map_values(|n: Seq<char>| &self.plugins()[n]),
            self.plugins().dom().finite(),
            increasing(r@.map_values(|e: &PluginEntry| e.manifest.name@)),
            forall|n: Seq<char>|
                r@.map_values(|e: &PluginEntry| e.manifest.name@).contains(n) <==> (
                self.plugins().contains_key(n) && (#[trigger] self.plugins()[n]).enabled),
    {
        let ghost all = in_order(self.plugins().dom());
        let ghost keep = |n: Seq<char>| self.plugins()[n].enabled;
        let every = self.list();
        let mut out: Vec<&PluginEntry> = Vec::new();
        let mut i: usize = 0;
        assert(all.take(0) =~= Seq::<Seq<char>>::empty());
        while i < every.len()
            invariant
                every@ == all.map_values(|n: Seq<char>| &self.plugins()[n]),
                keep == (|n: Seq<char>| self.plugins()[n].enabled),
                i <= every.len(),
                out@ == picked(all.take(i as int), keep).map_values(
                    |n: Seq<char>| &self.plugins()[n],
                ),
            decreases every.len() - i,
        {
            assert(all.take(i + 1).drop_last() =~= all.take(i as int));
            assert(*every@[i as int] == self.plugins()[all[i as int]]);
            if every[i].enabled {
                let ghost before = out@;
                out.push(every[i]);
            }
            assert(out@ =~= picked(all.take(i + 1), keep).map_values(
                |n: Seq<char>| &self.plugins()[n],
            ));
            i = i + 1;
        }
        assert(all.take(all.len() as int) =~= all);
        proof {
            use_type_invariant(self);
            law_names_are_listed_in_order(self.plugins().dom());
            lemma_picked(all, keep);
            let kept = picked(all, keep);
            assert forall|k: int| 0 <= k < kept.len() implies (#[trigger] out@[k]).manifest.name@
                == kept[k] by {
                assert(kept.contains(kept[k]));
                assert(all.to_set().contains(kept[k]));
            }
            assert(out@.map_values(|e: &PluginEntry| e.manifest.name@) =~= kept);
            assert forall|n: Seq<char>|
                kept.contains(n) <==> self.plugins().contains_key(n) && keep(n) by {
                assert(all.contains(n) <==> all.to_set().contains(n));
            }
        }
        out
    }

    /// The plugins that match a query in their name, their description or a keyword, in any case,
    /// by name.
    pub fn search(&self, query: &str) -> (r: Vec<&PluginEntry>)
        ensures
            r@ == picked(
                in_order(self.plugins().dom()),
                |n: Seq<char>| matches_query(self.plugins()[n].manifest, lower_text(query@)),
            ).map_values(|n: Seq<char>| &self.plugins()[n]),
            self.plugins().dom().finite(),
            increasing(r@.map_values(|e: &PluginEntry| e.manifest.name@)),
            forall|n: Seq<char>|
                r@.map_values(|e: &PluginEntry| e.manifest.name@).contains(n) <==> (
                self.plugins().contains_key(n) && matches_query(
                    (#[trigger] self.plugins()[n]).manifest,
                    lower_text(query@),
                )),
    {
        let q = to_lower(query);
        let ghost all = in_order(self.plugins().dom());
        let ghost keep = |n: Seq<char>| matches_query(self.plugins()[n].manifest, lower_text(query@));
        let every = self.list();
        let mut out: Vec<&PluginEntry> = Vec::new();
        let mut i: usize = 0;
        assert(all.take(0) =~= Seq::<Seq<char>>::empty());
        while i < every.len()
            invariant
                q@ == lower_text(query@),
                every@ == all.map_values(|n: Seq<char>| &self.plugins()[n]),
                keep == (|n: Seq<char>|
                    matches_query(self.plugins()[n].manifest, lower_text(query@))),
                i <= every.len(),
                out@ == picked(all.take(i as int), keep).map_values(
                    |n: Seq<char>| &self.plugins()[n],
                ),
            decreases every.len() - i,
        {
            assert(all.take(i + 1).drop_last() =~= all.take(i as int));
            assert(*every@[i as int] == self.plugins()[all[i as int]]);
            if manifest_matches(&every[i].manifest, q.as_str()) {
                out.push(every[i]);
            }
            assert(out@ =~= picked(all.take(i + 1), keep).map_values(
                |n: Seq<char>| &self.plugins()[n],
            ));
            i = i + 1;
        }
        assert(all.take(all.len() as int) =~= all);
        proof {
            use_type_invariant(self);
            law_names_are_listed_in_order(self.plugins().dom());
            lemma_picked(all, keep);
            let kept = picked(all, keep);
            assert forall|k: int| 0 <= k < kept.len() implies (#[trigger] out@[k]).manifest.name@
                == kept[k] by {
                assert(kept.contains(kept[k]));
                assert(all.to_set().contains(kept[k]));
            }
            assert(out@.map_values(|e: &PluginEntry| e.manifest.name@) =~= kept);
            assert forall|n: Seq<char>|
                kept.contains(n) <==> self.plugins().contains_key(n) && keep(n) by {
                assert(all.contains(n) <==> all.to_set().contains(n));
            }
        }
        out
    }

    /// The number of plugins.
    pub fn count(&self) -> (r: usize)
        ensures
            self.plugins().dom().finite(),
            r == self.plugins().dom().len(),
    {
        self.plugins.len()
    }

    /// Resolves what a plugin brings, given what stands at the paths that it names.
    pub fn resolve_components(&mut self, plugin_id: &str, facts: &Table<PathState>) -> (r: Result<
        ResolvedComponents,
        String,
    >)
        ensures
            final(self).same_places(*old(self)),
            match r {
                Ok(c) => {
                    let e = old(self).plugins()[plugin_id@];
                    let f = final(self).plugins()[plugin_id@];
                    &&& old(self).plugins().contains_key(plugin_id@)
                    &&& c@ == components_of(e.manifest.components, e.root@, facts@)
                    &&& f.resolved_components is Some && f.resolved_components->0@ == c@
                    &&& final(self).plugins() == old(self).plugins().insert(
                        plugin_id@,
                        PluginEntry { resolved_components: f.resolved_components, ..e },
                    )
                },
                Err(m) => {
                    &&& !old(self).plugins().contains_key(plugin_id@)
                    &&& final(self).plugins() == old(self).plugins()
                    &&& m@ == "Plugin '"@ + plugin_id@ + "' not found"@
                },
            },
    {
        proof {
            use_type_invariant(&*self);
        }
        let found = match self.plugins.get(plugin_id) {
            Some(e) => find_components(&e.manifest.components, e.root.as_str(), facts),
            None => {
                let mut m = concat("Plugin '", plugin_id);
                m.push_str("' not found");
                return Err(m);
            },
        };
        let mut t: Table<PluginEntry> = Table::new();
        core::mem::swap(&mut self.plugins, &mut t);
        if let Some(e) = t.remove(plugin_id) {
            let mut e = e;
            e.resolved_components = Some(found.copy());
            let _ = t.insert(plugin_id.to_owned(), e);
        }
        self.plugins = t;
        proof {
            let e = old(self).plugins()[plugin_id@];
            let f = self.plugins()[plugin_id@];
            assert(self.plugins() =~= old(self).plugins().insert(
                plugin_id@,
                PluginEntry { resolved_components: f.resolved_components, ..e },
            ));
        }
        Ok(found)
    }

    /// The order in which the plugins are loaded, each behind those that it needs. It fails where
    /// one needs a plugin that is not installed, and where plugins need each other.
    pub fn resolve_dependencies(&self) -> (r: Result<Vec<String>, String>)
        ensures
            match r {
                Ok(v) => is_dependency_order(self.dependencies(), strs(v@)),
                Err(m) => {
                    ||| exists|id: Seq<char>, dep: Seq<char>| #[trigger]
                        needs_missing(self.dependencies(), id, dep) && m@ == "Plugin '"@ + id
                            + "' depends on '"@ + dep + "' which is not installed"@
                    ||| (forall|id: Seq<char>, dep: Seq<char>|
                        !needs_missing(self.dependencies(), id, dep)) && !(exists|
                        order: Seq<Seq<char>>,
                    |
                        is_dependency_order(self.dependencies(), order)) && m@
                        == "Circular dependency detected among plugins"@
                },
            },
    {
        let ids = self.plugins.sorted_keys();
        let ghost all = strs(ids@);
        let ghost deps = self.dependencies();
        proof {
            crate::table::lemma_increasing_distinct(all);
            assert(deps.dom() =~= self.plugins().dom());
        }
        let mut needs: Vec<Vec<usize>> = Vec::new();
        let mut i: usize = 0;
        while i < ids.len()
            invariant
                all == strs(ids@),
                all.to_set() == deps.dom(),
                deps == self.dependencies(),
                i <= ids.len(),
                needs.len() == i,
                forall|a: int| 0 <= a < i ==> stands_for(needs@[a]@, deps[#[trigger] all[a]], all),
            decreases ids.len() - i,
        {
            assert(all[i as int] == ids@[i as int]@);
            assert(all.to_set().contains(all[i as int]));
            let mut row: Vec<usize> = Vec::new();
            let ghost names = deps[all[i as int]];
            if let Some(e) = self.plugins.get(ids[i].as_str()) {
                let list = &e.manifest.dependencies;
                assert(names == dependency_names(list@));
                let mut k: usize = 0;
                while k < list.len()
                    invariant
                        all == strs(ids@),
                        all.to_set() == deps.dom(),
                        deps == self.dependencies(),
                        i < ids.len(),
                        all[i as int] == ids@[i as int]@,
                        deps.contains_key(all[i as int]),
                        names == deps[all[i as int]],
                        names == dependency_names(list@),
                        k <= list.len(),
                        row.len() == k,
                        forall|a: int|
                            0 <= a < k ==> (#[trigger] row@[a]) < all.len() && all[row@[a] as int]
                                == names[a],
                    decreases list.len() - k,
                {
                    assert(names[k as int] == list@[k as int].name@);
                    match position_of(&ids, list[k].name.as_str()) {
                        Some(j) => {
                            assert(all[j as int] == ids@[j as int]@);
                            row.push(j);
                        },
                        None => {
                            let mut m = concat("Plugin '", ids[i].as_str());
                            m.push_str("' depends on '");
                            m.push_str(list[k].name.as_str());
                            m.push_str("' which is not installed");
                            proof {
                                let dep = names[k as int];
                                assert(deps[all[i as int]].contains(dep));
                                assert(!all.to_set().contains(dep));
                                assert(needs_missing(deps, all[i as int], dep));
                            }
                            return Err(m);
                        },
                    }
                    k = k + 1;
                }
            }
            assert(stands_for(row@, names, all));
            needs.push(row);
            i = i + 1;
        }
        proof {
            assert forall|a: int, k: int|
                0 <= a < needs.len() && 0 <= k < needs@[a]@.len() implies (
            #[trigger] needs@[a]@[k]) < needs.len() by {
                assert(stands_for(needs@[a]@, deps[all[a]], all));
            }
            assert forall|id: Seq<char>, dep: Seq<char>| !needs_missing(deps, id, dep) by {
                if needs_missing(deps, id, dep) {
                    assert(all.to_set().contains(id));
                    assert(all.contains(id));
                    let a = choose|a: int| 0 <= a < all.len() && all[a] == id;
                    let k = choose|k: int| 0 <= k < deps[id].len() && deps[id][k] == dep;
                    assert(stands_for(needs@[a]@, deps[all[a]], all));
                    assert(needs@[a]@[k] < all.len());
                    assert(all.contains(dep));
                    assert(all.to_set().contains(dep));
                }
            }
        }
        match order_items(&needs) {
            Some(order) => {
                let ghost o = as_ints(order@);
                let mut out: Vec<String> = Vec::new();
                let mut p: usize = 0;
                while p < order.len()
                    invariant
                        all == strs(ids@),
                        orders(needs@, as_ints(order@)),
                        needs.len() == ids.len(),
                        p <= order.len(),
                        out.len() == p,
                        forall|q: int| 0 <= q < p ==> (#[trigger] out@[q])@ == all[order@[q] as int],
                    decreases order.len() - p,
                {
                    assert(0 <= as_ints(order@)[p as int] < needs.len());
                    assert(all[order@[p as int] as int] == ids@[order@[p as int] as int]@);
                    out.push(ids[order[p]].clone());
                    p = p + 1;
                }
                proof {
                    lemma_names_ordered(needs@, all, deps, o, strs(out@));
                }
                Ok(out)
            },
            None => {
                proof {
                    if exists|w: Seq<Seq<char>>| is_dependency_order(deps, w) {
                        let w = choose|w: Seq<Seq<char>>| is_dependency_order(deps, w);
                        lemma_indices_ordered(needs@, all, deps, w);
                    }
                }
                Err("Circular dependency detected among plugins".to_owned())
            },
        }
    }

    /// The directory for the data of a plugin.
    pub fn data_dir_for(&self, plugin_id: &str) -> (r: String)
        ensures
            r@ == joined_path(self.data_root(), sanitized(plugin_id@)),
    {
        join_path(self.data_dir.as_str(), sanitize(plugin_id).as_str())
    }
}

/// Whether positions stand for names.
spec fn stands_for(row: Seq<usize>, names: Seq<Seq<char>>, all: Seq<Seq<char>>) -> bool {
    row.len() == names.len() && forall|k: int|
        0 <= k < row.len() ==> (#[trigger] row[k]) < all.len() && all[row[k] as int] == names[k]
}

proof fn lemma_names_ordered(
    needs: Seq<Vec<usize>>,
    all: Seq<Seq<char>>,
    deps: Map<Seq<char>, Seq<Seq<char>>>,
    o: Seq<int>,
    w: Seq<Seq<char>>,
)
    requires
        needs.len() == all.len(),
        all.no_duplicates(),
        all.to_set() == deps.dom(),
        forall|a: int| 0 <= a < needs.len() ==> stands_for(needs[a]@, deps[#[trigger] all[a]], all),
        orders(needs, o),
        w.len() == o.len(),
        forall|p: int| 0 <= p < w.len() ==> #[trigger] w[p] == all[o[p]],
    ensures
        is_dependency_order(deps, w),
{
    let n = all.len();
    crate::table::lemma_permutation_covers(o, n as int);
    assert forall|p: int, q: int| 0 <= p < q < w.len() implies w[p] != w[q] by {
        assert(o[p] != o[q]);
        assert(0 <= o[p] < n && 0 <= o[q] < n);
    }
    assert(w.to_set() =~= deps.dom()) by {
        assert forall|s: Seq<char>| w.to_set().contains(s) == #[trigger] all.to_set().contains(s) by {
            if w.contains(s) {
                let p = choose|p: int| 0 <= p < w.len() && w[p] == s;
                assert(0 <= o[p] < n);
                assert(all[o[p]] == s);
            }
            if all.contains(s) {
                let a = choose|a: int| 0 <= a < n && all[a] == s;
                assert(o.contains(a));
                let p = choose|p: int| 0 <= p < o.len() && o[p] == a;
                assert(w[p] == s);
            }
        }
    }
    assert forall|p: int, k: int|
        0 <= p < w.len() && 0 <= k < deps[w[p]].len() implies w.take(p).contains(
        #[trigger] deps[w[p]][k],
    ) by {
        let a = o[p];
        assert(0 <= a < n);
        assert(w[p] == all[a]);
        assert(stands_for(needs[a]@, deps[all[a]], all));
        let d = needs[o[p]]@[k] as int;
        assert(all[d] == deps[w[p]][k]);
        assert(o.take(p).contains(d));
        let q = choose|q: int| 0 <= q < o.take(p).len() && o.take(p)[q] == d;
        assert(w.take(p)[q] == all[o[q]]);
    }
}

proof fn lemma_indices_ordered(
    needs: Seq<Vec<usize>>,
    all: Seq<Seq<char>>,
    deps: Map<Seq<char>, Seq<Seq<char>>>,
    w: Seq<Seq<char>>,
)
    requires
        needs.len() == all.len(),
        all.no_duplicates(),
        all.to_set() == deps.dom(),
        forall|a: int| 0 <= a < needs.len() ==> stands_for(needs[a]@, deps[#[trigger] all[a]], all),
        is_dependency_order(deps, w),
    ensures
        exists|o: Seq<int>| orders(needs, o),
{
    let n = all.len();
    w.unique_seq_to_set();
    all.unique_seq_to_set();
    assert(w.len() == n);
    let o = Seq::new(w.len(), |p: int| all.index_of(w[p]));
    assert forall|p: int| 0 <= p < o.len() implies 0 <= #[trigger] o[p] < n && all[o[p]] == w[p] by {
        assert(w.to_set().contains(w[p]));
        assert(all.to_set().contains(w[p]));
        assert(all.contains(w[p]));
    }
    assert forall|p: int, q: int| 0 <= p < q < o.len() implies o[p] != o[q] by {
        assert(w[p] != w[q]);
        assert(all[o[p]] == w[p] && all[o[q]] == w[q]);
    }
    assert(o.no_duplicates());
    assert forall|p: int, k: int|
        0 <= p < o.len() && 0 <= k < needs[o[p]]@.len() implies o.take(p).contains(
        (#[trigger] needs[o[p]]@[k]) as int,
    ) by {
        let a = o[p];
        assert(0 <= a < n && all[a] == w[p]);
        assert(stands_for(needs[a]@, deps[all[a]], all));
        let d = needs[a]@[k] as int;
        assert(all[d] == deps[w[p]][k]);
        assert(w.take(p).contains(deps[w[p]][k]));
        let q = choose|q: int| 0 <= q < w.take(p).len() && w.take(p)[q] == deps[w[p]][k];
        assert(all[o[q]] == w[q]);
        assert(o[q] == d);
        assert(o.take(p)[q] == d);
    }
    assert(orders(needs, o));
}

// ── Laws ────────────────────────────────────────────────────────────────────────────────────

/// Having a plugin not used and then used again leaves it as if it had only been made used.
pub proof fn law_enable_undoes_disable(plugins: Map<Seq<char>, PluginEntry>, id: Seq<char>)
    requires
        plugins.contains_key(id),
    ensures
        ({
            let off = plugins.insert(id, PluginEntry { enabled: false, ..plugins[id] });
            off.insert(id, PluginEntry { enabled: true, ..off[id] })
        }) == plugins.insert(id, PluginEntry { enabled: true, ..plugins[id] }),
{
    let off = plugins.insert(id, PluginEntry { enabled: false, ..plugins[id] });
    assert(off.insert(id, PluginEntry { enabled: true, ..off[id] }) =~= plugins.insert(
        id,
        PluginEntry { enabled: true, ..plugins[id] },
    ));
}

/// Only addresses with the scheme `https` are cloned, and none whose host is a private IPv4 address.
pub proof fn law_only_public_https(url: Seq<char>)
    ensures
        clone_refusal(url) is None <==> "https://"@.is_prefix_of(url) && !is_private_host(
            host_of(url.subrange(8, url.len() as int)),
        ),
{
}

proof fn lemma_same_files(
    a: Map<Seq<char>, PathState>,
    b: Map<Seq<char>, PathState>,
    root: Seq<char>,
    paths: Seq<Seq<char>>,
    ext: Seq<char>,
)
    requires
        forall|i: int| 0 <= i < paths.len() ==> agree(a, b, below(root, #[trigger] paths[i])),
    ensures
        found_files(a, root, paths, ext) == found_files(b, root, paths, ext),
        found_dirs(a, root, paths) == found_dirs(b, root, paths),
    decreases paths.len(),
{
    if paths.len() > 0 {
        let front = paths.drop_last();
        assert forall|i: int| 0 <= i < front.len() implies agree(
            a,
            b,
            below(root, #[trigger] front[i]),
        ) by {
            assert(front[i] == paths[i]);
        }
        lemma_same_files(a, b, root, front, ext);
        assert(agree(a, b, below(root, paths[paths.len() - 1])));
    }
}

/// Whether two views of the file system say the same of a path.
pub open spec fn agree(
    a: Map<Seq<char>, PathState>,
    b: Map<Seq<char>, PathState>,
    p: Seq<char>,
) -> bool {
    a.contains_key(p) == b.contains_key(p) && (a.contains_key(p) ==> a[p] == b[p])
}

proof fn lemma_listed_agree(
    a: Map<Seq<char>, PathState>,
    b: Map<Seq<char>, PathState>,
    all: Seq<Seq<char>>,
    before: Seq<Seq<char>>,
    root: Seq<char>,
    paths: Seq<Seq<char>>,
)
    requires
        forall|i: int| 0 <= i < all.len() ==> agree(a, b, #[trigger] all[i]),
        (before + all_below(root, paths)).is_prefix_of(all),
    ensures
        forall|i: int| 0 <= i < paths.len() ==> agree(a, b, below(root, #[trigger] paths[i])),
{
    assert forall|i: int| 0 <= i < paths.len() implies agree(
        a,
        b,
        below(root, #[trigger] paths[i]),
    ) by {
        let part = before + all_below(root, paths);
        assert(part[before.len() + i] == below(root, paths[i]));
        assert(all[before.len() + i] == part[before.len() + i]);
    }
}

/// What a plugin brings depends on nothing but what stands at the paths that are looked at.
pub proof fn law_looked_at_paths_suffice(
    c: PluginComponents,
    root: Seq<char>,
    a: Map<Seq<char>, PathState>,
    b: Map<Seq<char>, PathState>,
)
    requires
        forall|i: int| 0 <= i < paths_of(c, root).len() ==> agree(a, b, #[trigger] paths_of(c, root)[i]),
    ensures
        components_of(c, root, a) == components_of(c, root, b),
{
    let all = paths_of(c, root);
    let p0 = seq![joined_path(root, "skills"@), joined_path(root, ".mcp.json"@)];
    let p1 = p0 + all_below(root, listed(c.skills));
    let p2 = p1 + all_below(root, listed(c.agents));
    let p3 = p2 + all_below(root, listed(c.hooks));
    let p4 = p3 + all_below(root, listed(c.mcp_servers));
    let p5 = p4 + all_below(root, listed(c.lsp_servers));
    let p6 = p5 + all_below(root, listed(c.monitors));
    let p7 = p6 + all_below(root, listed(c.themes));
    assert(all[0] == p0[0]);
    assert(all[1] == p0[1]);
    lemma_listed_agree(a, b, all, p0, root, listed(c.skills));
    lemma_listed_agree(a, b, all, p1, root, listed(c.agents));
    lemma_listed_agree(a, b, all, p2, root, listed(c.hooks));
    lemma_listed_agree(a, b, all, p3, root, listed(c.mcp_servers));
    lemma_listed_agree(a, b, all, p4, root, listed(c.lsp_servers));
    lemma_listed_agree(a, b, all, p5, root, listed(c.monitors));
    lemma_listed_agree(a, b, all, p6, root, listed(c.themes));
    lemma_listed_agree(a, b, all, p7, root, listed(c.output_styles));
    lemma_same_files(a, b, root, listed(c.skills), "md"@);
    lemma_same_files(a, b, root, listed(c.agents), "md"@);
    lemma_same_files(a, b, root, listed(c.themes), "json"@);
    lemma_same_files(a, b, root, listed(c.output_styles), "md"@);
    lemma_same_first(a, b, root, c.hooks);
    lemma_same_first(a, b, root, c.mcp_servers);
    lemma_same_first(a, b, root, c.lsp_servers);
    lemma_same_first(a, b, root, c.monitors);
    assert(agree(a, b, joined_path(root, "skills"@)));
    assert(agree(a, b, joined_path(root, ".mcp.json"@)));
    assert(components_of(c, root, a) =~= components_of(c, root, b));
}

proof fn lemma_same_first(
    a: Map<Seq<char>, PathState>,
    b: Map<Seq<char>, PathState>,
    root: Seq<char>,
    paths: Option<Vec<String>>,
)
    requires
        forall|i: int|
            0 <= i < listed(paths).len() ==> agree(a, b, below(root, #[trigger] listed(paths)[i])),
    ensures
        found_first(a, root, paths) == found_first(b, root, paths),
{
    if let Some(v) = paths {
        if v@.len() > 0 {
            assert(listed(paths)[0] == v@[0]@);
        }
    }
}

/// The paths with an extension are picked out in their order.
proof fn lemma_with_extension_filters(paths: Seq<Seq<char>>, ext: Seq<char>)
    ensures
        with_extension(paths, ext) == paths.filter(|p: Seq<char>| has_extension(p, ext)),
    decreases paths.len(),
{
    reveal(Seq::filter);
    if paths.len() > 0 {
        lemma_with_extension_filters(paths.drop_last(), ext);
    } else {
        assert(with_extension(paths, ext) =~= paths);
    }
}

/// What is found at the named paths is what is found at each of them, in their order. At a file that
/// is the file; at a directory it is the directory, where directories are looked for, and all its
/// files with the extension, where files are; and at a path with nothing it is nothing.
pub proof fn law_every_named_path_is_looked_at(
    facts: Map<Seq<char>, PathState>,
    root: Seq<char>,
    a: Seq<Seq<char>>,
    b: Seq<Seq<char>>,
    ext: Seq<char>,
    p: Seq<char>,
)
    ensures
        found_files(facts, root, a + b, ext) == found_files(facts, root, a, ext) + found_files(
            facts,
            root,
            b,
            ext,
        ),
        found_dirs(facts, root, a + b) == found_dirs(facts, root, a) + found_dirs(facts, root, b),
        ({
            let at = below(root, p);
            let files = found_files(facts, root, seq![p], ext);
            let dirs = found_dirs(facts, root, seq![p]);
            if !facts.contains_key(at) {
                files.len() == 0 && dirs.len() == 0
            } else {
                match facts[at] {
                    PathState::Missing => files.len() == 0 && dirs.len() == 0,
                    PathState::File => files == seq![at] && dirs.len() == 0,
                    PathState::Directory(children) => dirs == seq![at] && files == strs(
                        children@,
                    ).filter(|c: Seq<char>| has_extension(c, ext)),
                }
            }
        }),
    decreases b.len(),
{
    if b.len() == 0 {
        assert(a + b =~= a);
        assert(found_files(facts, root, a, ext) + found_files(facts, root, b, ext) =~= found_files(
            facts,
            root,
            a,
            ext,
        ));
        assert(found_dirs(facts, root, a) + found_dirs(facts, root, b) =~= found_dirs(
            facts,
            root,
            a,
        ));
    } else {
        law_every_named_path_is_looked_at(facts, root, a, b.drop_last(), ext, p);
        assert((a + b).drop_last() =~= a + b.drop_last());
        assert(found_files(facts, root, a + b, ext) =~= found_files(facts, root, a, ext)
            + found_files(facts, root, b, ext));
        assert(found_dirs(facts, root, a + b) =~= found_dirs(facts, root, a) + found_dirs(
            facts,
            root,
            b,
        ));
    }
    let one = seq![p];
    assert(one.drop_last() =~= Seq::<Seq<char>>::empty());
    assert(found_files(facts, root, one.drop_last(), ext) =~= Seq::<Seq<char>>::empty());
    assert(found_dirs(facts, root, one.drop_last()) =~= Seq::<Seq<char>>::empty());
    let at = below(root, p);
    if facts.contains_key(at) {
        if let PathState::Directory(children) = facts[at] {
            lemma_with_extension_filters(strs(children@), ext);
            let found = with_extension(strs(children@), ext);
            assert(Seq::<Seq<char>>::empty() + found =~= found);
        }
        assert(Seq::<Seq<char>>::empty().push(at) =~= seq![at]);
    }
}

/// What a plugin brings is what stands at the paths that its manifest names, each kind by itself. Of
/// the kinds that are one file the first path counts. Only skills and servers that the manifest does
/// not name are looked for in their usual places.
pub proof fn law_components_come_from_the_manifest(
    c: PluginComponents,
    root: Seq<char>,
    facts: Map<Seq<char>, PathState>,
)
    ensures
        ({
            let r = components_of(c, root, facts);
            &&& c.skills is Some ==> r.skill_dirs == found_dirs(facts, root, strs(c.skills->0@))
            &&& c.skills is None ==> r.skill_dirs == if is_dir(facts, joined_path(root, "skills"@)) {
                seq![joined_path(root, "skills"@)]
            } else {
                Seq::empty()
            }
            &&& c.agents is Some ==> r.agent_files == found_files(
                facts,
                root,
                strs(c.agents->0@),
                "md"@,
            )
            &&& c.agents is None ==> r.agent_files.len() == 0
            &&& c.themes is Some ==> r.theme_files == found_files(
                facts,
                root,
                strs(c.themes->0@),
                "json"@,
            )
            &&& c.themes is None ==> r.theme_files.len() == 0
            &&& c.output_styles is Some ==> r.output_style_files == found_files(
                facts,
                root,
                strs(c.output_styles->0@),
                "md"@,
            )
            &&& c.output_styles is None ==> r.output_style_files.len() == 0
            &&& c.hooks is None ==> r.hooks_file is None
            &&& c.lsp_servers is None ==> r.lsp_config_file is None
            &&& c.monitors is None ==> r.monitors_file is None
            &&& c.mcp_servers is None ==> r.mcp_config_file == if is_file(
                facts,
                joined_path(root, ".mcp.json"@),
            ) {
                Some(joined_path(root, ".mcp.json"@))
            } else {
                None
            }
            &&& c.hooks is Some && c.hooks->0@.len() > 0 ==> r.hooks_file == if is_file(
                facts,
                below(root, c.hooks->0@[0]@),
            ) {
                Some(below(root, c.hooks->0@[0]@))
            } else {
                None
            }
            &&& c.mcp_servers is Some && c.mcp_servers->0@.len() > 0 ==> r.mcp_config_file
                == if is_file(facts, below(root, c.mcp_servers->0@[0]@)) {
                Some(below(root, c.mcp_servers->0@[0]@))
            } else {
                None
            }
            &&& c.lsp_servers is Some && c.lsp_servers->0@.len() > 0 ==> r.lsp_config_file
                == if is_file(facts, below(root, c.lsp_servers->0@[0]@)) {
                Some(below(root, c.lsp_servers->0@[0]@))
            } else {
                None
            }
            &&& c.monitors is Some && c.monitors->0@.len() > 0 ==> r.monitors_file == if is_file(
                facts,
                below(root, c.monitors->0@[0]@),
            ) {
                Some(below(root, c.monitors->0@[0]@))
            } else {
                None
            }
        }),
{
}

/// A saved choice of the user is taken up again: each plugin is used or not as was saved of it last,
/// everything else of it stays, and one of which nothing was saved stays as it is.
pub proof fn law_saved_choices_are_restored(
    plugins: Map<Seq<char>, PluginEntry>,
    saved: Seq<(String, bool)>,
    id: Seq<char>,
    i: int,
)
    ensures
        restored(plugins, saved).dom() == plugins.dom(),
        plugins.contains_key(id) ==> ({
            let e = restored(plugins, saved)[id];
            e == PluginEntry { enabled: e.enabled, ..plugins[id] }
        }),
        plugins.contains_key(id) && 0 <= i < saved.len() && saved[i].0@ == id && (forall|k: int|
            i < k < saved.len() ==> (#[trigger] saved[k]).0@ != id) ==> restored(
            plugins,
            saved,
        )[id].enabled == saved[i].1,
        plugins.contains_key(id) && (forall|k: int|
            0 <= k < saved.len() ==> (#[trigger] saved[k]).0@ != id) ==> restored(plugins, saved)[id]
            == plugins[id],
    decreases saved.len(),
{
    if saved.len() > 0 {
        let front = saved.drop_last();
        law_saved_choices_are_restored(plugins, front, id, i);
        assert(saved[saved.len() - 1] == saved.last());
        assert(forall|k: int| 0 <= k < front.len() ==> #[trigger] front[k] == saved[k]);
        assert(restored(plugins, saved).dom() =~= plugins.dom());
        if forall|k: int| 0 <= k < saved.len() ==> (#[trigger] saved[k]).0@ != id {
            assert forall|k: int| 0 <= k < front.len() implies (#[trigger] front[k]).0@ != id by {
                assert(front[k] == saved[k]);
            }
        }
        if 0 <= i < front.len() && (forall|k: int|
            i < k < saved.len() ==> (#[trigger] saved[k]).0@ != id) {
            assert forall|k: int| i < k < front.len() implies (#[trigger] front[k]).0@ != id by {
                assert(front[k] == saved[k]);
            }
        }
    }
}

/// Every plugin that was found is installed, in the scope where it was found, used, and under its own
/// name; of several with one name the last counts, and plugins of other names stay.
pub proof fn law_found_plugins_are_installed(
    plugins: Map<Seq<char>, PluginEntry>,
    scope: PluginScope,
    found: Seq<(PluginManifest, String)>,
    i: int,
    id: Seq<char>,
)
    ensures
        0 <= i < found.len() ==> PluginRegistry::with_found(plugins, scope, found).contains_key(
            found[i].0.name@,
        ),
        0 <= i < found.len() && (forall|k: int|
            i < k < found.len() ==> (#[trigger] found[k]).0.name@ != found[i].0.name@)
            ==> PluginRegistry::with_found(plugins, scope, found)[found[i].0.name@] == (
        PluginEntry {
            manifest: found[i].0,
            root: found[i].1,
            scope,
            enabled: true,
            resolved_components: None,
        }),
        (forall|k: int| 0 <= k < found.len() ==> (#[trigger] found[k]).0.name@ != id) ==> (
        PluginRegistry::with_found(plugins, scope, found).contains_key(id) == plugins.contains_key(
            id,
        ) && (plugins.contains_key(id) ==> PluginRegistry::with_found(plugins, scope, found)[id]
            == plugins[id])),
    decreases found.len(),
{
    if found.len() > 0 {
        let front = found.drop_last();
        law_found_plugins_are_installed(plugins, scope, front, i, id);
        assert(found[found.len() - 1] == found.last());
        assert(forall|k: int| 0 <= k < front.len() ==> #[trigger] front[k] == found[k]);
        if forall|k: int| 0 <= k < found.len() ==> (#[trigger] found[k]).0.name@ != id {
            assert forall|k: int| 0 <= k < front.len() implies (#[trigger] front[k]).0.name@
                != id by {
                assert(front[k] == found[k]);
            }
        }
        if 0 <= i < front.len() && (forall|k: int|
            i < k < found.len() ==> (#[trigger] found[k]).0.name@ != found[i].0.name@) {
            assert forall|k: int| i < k < front.len() implies (#[trigger] front[k]).0.name@
                != front[i].0.name@ by {
                assert(front[k] == found[k]);
            }
        }
    }
}

/// The host of an address stands behind what names the user and before the port and the path.
pub proof fn law_host_stands_in_the_middle(
    user: Seq<char>,
    host: Seq<char>,
    port: Seq<char>,
    path: Seq<char>,
)
    requires
        !user.contains('/'),
        !host.contains('/') && !host.contains('@') && !host.contains(':'),
        !port.contains('/') && !port.contains('@'),
    ensures
        host_of(host) == host,
        host_of(host + seq!['/'] + path) == host,
        host_of(host + seq![':'] + port + seq!['/'] + path) == host,
        host_of(user + seq!['@'] + host + seq!['/'] + path) == host,
        host_of(user + seq!['@'] + host + seq![':'] + port + seq!['/'] + path) == host,
{
    let e = Seq::<char>::empty();
    let hp = host + seq![':'] + port;
    law_text_is_split_at_each(host, path, '/');
    law_text_is_split_at_each(host, e, '@');
    law_text_is_split_at_each(host, port, ':');
    lemma_free(host, ':', port, '/');
    lemma_free(host, ':', port, '@');
    law_text_is_split_at_each(hp, path, '/');
    law_text_is_split_at_each(hp, e, '@');
    let uh = user + seq!['@'] + host;
    lemma_free(user, '@', host, '/');
    law_text_is_split_at_each(uh, path, '/');
    law_text_is_split_at_each(user, host, '@');
    let uhp = user + seq!['@'] + hp;
    lemma_free(user, '@', hp, '/');
    law_text_is_split_at_each(uhp, path, '/');
    law_text_is_split_at_each(user, hp, '@');
    assert(user + seq!['@'] + host + seq![':'] + port + seq!['/'] + path =~= uhp + seq!['/'] + path);
    assert(split(host, ':') == seq![host]);
    assert(split(hp, ':') == seq![host] + split(port, ':'));
}

proof fn lemma_free(a: Seq<char>, c: char, b: Seq<char>, d: char)
    requires
        !a.contains(d),
        !b.contains(d),
        c != d,
    ensures
        !(a + seq![c] + b).contains(d),
{
    let s = a + seq![c] + b;
    assert forall|i: int| 0 <= i < s.len() implies s[i] != d by {
        if i < a.len() {
            assert(a.contains(a[i]));
        } else if i > a.len() {
            assert(b.contains(b[i - a.len() - 1]));
        }
    }
}

proof fn lemma_octet(n: nat)
    requires
        n <= 255,
    ensures
        is_octet(decimal(n)),
        digits_value(decimal(n)) == n,
        !decimal(n).contains('.'),
{
    law_decimal_notation_stands_for_its_number(n);
    lemma_same_value(decimal(n));
    if n >= 10 {
        law_decimal_notation_stands_for_its_number(n / 10);
        if n >= 100 {
            assert(decimal(n / 100).len() == 1);
            assert(n / 10 / 10 == n / 100);
        }
    }
}

proof fn lemma_same_value(s: Seq<char>)
    requires
        forall|i: int| 0 <= i < s.len() ==> '0' <= #[trigger] s[i] <= '9',
    ensures
        digits_value(s) == digits_mean(s),
    decreases s.len(),
{
    if s.len() > 0 {
        assert('0' <= s[s.len() - 1] <= '9');
        lemma_same_value(s.drop_last());
    }
}

/// An IPv4 address counts as private exactly where its first bytes are those of this machine, of one of
/// the private networks, or zero.
pub proof fn law_private_addresses(a: nat, b: nat, c: nat, d: nat)
    requires
        a <= 255 && b <= 255 && c <= 255 && d <= 255,
    ensures
        is_private_host(
            decimal(a) + seq!['.'] + (decimal(b) + seq!['.'] + (decimal(c) + seq!['.'] + decimal(d))),
        ) <==> a == 127 || a == 10 || (a == 172 && 16 <= b <= 31) || (a == 192 && b == 168) || a == 0,
{
    lemma_octet(a);
    lemma_octet(b);
    lemma_octet(c);
    lemma_octet(d);
    let e = Seq::<char>::empty();
    let z = decimal(c) + seq!['.'] + decimal(d);
    let y = decimal(b) + seq!['.'] + z;
    let x = decimal(a) + seq!['.'] + y;
    law_text_is_split_at_each(decimal(d), e, '.');
    law_text_is_split_at_each(decimal(c), decimal(d), '.');
    law_text_is_split_at_each(decimal(b), z, '.');
    law_text_is_split_at_each(decimal(a), y, '.');
    assert(split(x, '.') =~= seq![decimal(a), decimal(b), decimal(c), decimal(d)]);
}

/// A plugin matches a query that stands in its name, its description or one of its keywords, in any
/// case, and no other query.
pub proof fn law_query_is_looked_for_everywhere(m: PluginManifest, q: Seq<char>, i: int)
    ensures
        contains(lower_text(m.name@), q) ==> matches_query(m, q),
        contains(lower_text(m.description@), q) ==> matches_query(m, q),
        0 <= i < m.keywords@.len() && contains(lower_text(m.keywords@[i]@), q) ==> matches_query(m, q),
        matches_query(m, q) ==> contains(lower_text(m.name@), q) || contains(
            lower_text(m.description@),
            q,
        ) || exists|k: int|
            0 <= k < m.keywords@.len() && contains(lower_text((#[trigger] m.keywords@[k])@), q),
{
}

/// In an order of loading every plugin stands exactly once, and everything that a plugin needs stands
/// before it. A plugin needs a missing one exactly where it asks for one that is not installed.
pub proof fn law_needed_plugins_load_first(
    deps: Map<Seq<char>, Seq<Seq<char>>>,
    order: Seq<Seq<char>>,
    id: Seq<char>,
    k: int,
    dep: Seq<char>,
)
    requires
        is_dependency_order(deps, order),
    ensures
        deps.contains_key(id) <==> order.contains(id),
        order.no_duplicates(),
        deps.contains_key(id) && 0 <= k < deps[id].len() ==> exists|i: int, j: int|
            0 <= i < j < order.len() && #[trigger] order[i] == deps[id][k] && #[trigger] order[j]
                == id,
        needs_missing(deps, id, dep) <==> deps.contains_key(id) && deps[id].contains(dep)
            && !deps.contains_key(dep),
{
    assert(order.to_set().contains(id) == order.contains(id));
    if deps.contains_key(id) && 0 <= k < deps[id].len() {
        let j = order.index_of(id);
        assert(order[j] == id);
        assert(order.take(j).contains(deps[order[j]][k]));
        let t = order.take(j);
        let i = t.index_of(deps[id][k]);
        assert(t[i] == order[i]);
    }
}

} // verus!
