//! Paths as texts, with `/` as the separator.

use vstd::prelude::*;
use crate::text::{
    chars_of, concat, law_text_is_split_at_each, opt_str, same, split, split_on, starts_with,
    string_of, trim, trimmed,
};

verus! {

/// Whether a path starts at the root.
pub open spec fn absolute(p: Seq<char>) -> bool {
    p.len() > 0 && p[0] == '/'
}

/// A path below another; an absolute path stands for itself.
pub open spec fn joined_path(base: Seq<char>, rel: Seq<char>) -> Seq<char> {
    if absolute(rel) || base.len() == 0 {
        rel
    } else if base.last() == '/' {
        base + rel
    } else {
        base + "/"@ + rel
    }
}

/// A path without the separators and the `.` components at its end.
pub open spec fn tidy(p: Seq<char>) -> Seq<char>
    decreases p.len(),
{
    if p.len() > 1 && p.last() == '/' {
        tidy(p.drop_last())
    } else if p.len() > 1 && p.last() == '.' && p[p.len() - 2] == '/' {
        if p.len() == 2 {
            p.drop_last()
        } else {
            tidy(p.drop_last())
        }
    } else {
        p
    }
}

/// A path without the characters behind its last separator.
pub open spec fn dir_part(p: Seq<char>) -> Seq<char>
    decreases p.len(),
{
    if p.len() == 0 || p.last() == '/' {
        p
    } else {
        dir_part(p.drop_last())
    }
}

/// The path without its last component; nothing for the root and for the empty path.
pub open spec fn parent(p: Seq<char>) -> Option<Seq<char>> {
    let t = tidy(p);
    if t.len() == 0 || t == "/"@ {
        None
    } else {
        Some(tidy(dir_part(t)))
    }
}

/// The last component of a path; nothing where there is none or it is `..`.
pub open spec fn file_name(p: Seq<char>) -> Option<Seq<char>> {
    let t = tidy(p);
    let n = t.subrange(dir_part(t).len() as int, t.len() as int);
    if t.len() == 0 || t == "/"@ || n == ".."@ || n == "."@ {
        None
    } else {
        Some(n)
    }
}

/// Whether some component of a path is `..`.
pub open spec fn climbs(p: Seq<char>) -> bool {
    split(p, '/').contains(".."@)
}

/// Whether the canonical path `p` is the canonical directory `dir` or stands below it.
pub open spec fn within(p: Seq<char>, dir: Seq<char>) -> bool {
    dir.is_prefix_of(p) && (p.len() == dir.len() || dir.len() == 0 || dir.last() == '/' || p[dir.len() as int]
        == '/')
}

/// Whether a path starts at the root.
pub fn is_absolute(p: &str) -> (r: bool)
    ensures
        r == absolute(p@),
{
    let v = chars_of(p);
    v.len() > 0 && v[0] == '/'
}

/// A path below another.
pub fn join_path(base: &str, rel: &str) -> (r: String)
    ensures
        r@ == joined_path(base@, rel@),
{
    let v = chars_of(base);
    if is_absolute(rel) || v.len() == 0 {
        rel.to_owned()
    } else if v[v.len() - 1] == '/' {
        concat(base, rel)
    } else {
        let mut r = concat(base, "/");
        r.push_str(rel);
        r
    }
}

/// The length of a path without the separators and the `.` components at its end.
fn tidy_len(v: &Vec<char>, len: usize) -> (n: usize)
    requires
        len <= v.len(),
    ensures
        n <= len,
        v@.take(n as int) == tidy(v@.take(len as int)),
{
    let mut n: usize = len;
    loop
        invariant
            n <= len <= v.len(),
            tidy(v@.take(n as int)) == tidy(v@.take(len as int)),
        ensures
            n <= len,
            v@.take(n as int) == tidy(v@.take(len as int)),
        decreases n,
    {
        let ghost t = v@.take(n as int);
        if n > 1 && v[n - 1] == '/' {
            assert(t.drop_last() =~= v@.take(n - 1));
            n = n - 1;
        } else if n > 1 && v[n - 1] == '.' && v[n - 2] == '/' {
            assert(t.drop_last() =~= v@.take(n - 1));
            n = n - 1;
            if n == 1 {
                assert(tidy(v@.take(1)) == v@.take(1));
                break;
            }
        } else {
            break;
        }
    }
    n
}

/// The length of a path without the characters behind its last separator.
fn dir_len(v: &Vec<char>, len: usize) -> (n: usize)
    requires
        len <= v.len(),
    ensures
        n <= len,
        v@.take(n as int) == dir_part(v@.take(len as int)),
{
    let mut n: usize = len;
    while n > 0 && v[n - 1] != '/'
        invariant
            n <= len <= v.len(),
            dir_part(v@.take(n as int)) == dir_part(v@.take(len as int)),
        decreases n,
    {
        assert(v@.take(n as int).drop_last() =~= v@.take(n - 1));
        n = n - 1;
    }
    n
}

/// The path without its last component.
pub fn parent_of(p: &str) -> (r: Option<String>)
    ensures
        opt_str(r) == parent(p@),
{
    let v = chars_of(p);
    assert(v@.take(v@.len() as int) =~= v@);
    let n: usize = tidy_len(&v, v.len());
    let ghost t = v@.take(n as int);
    proof {
        reveal_strlit("/");
    }
    if n == 0 {
        return None;
    }
    if n == 1 && v[0] == '/' {
        assert(t =~= "/"@);
        return None;
    }
    assert(t != "/"@) by {
        if t == "/"@ {
            assert(t.len() == 1 && t[0] == '/');
        }
    }
    let d: usize = dir_len(&v, n);
    let m: usize = tidy_len(&v, d);
    assert(v@.take(m as int) =~= v@.subrange(0, m as int));
    Some(string_of(&v, 0, m))
}

/// The last component of a path.
pub fn file_name_of(p: &str) -> (r: Option<String>)
    ensures
        opt_str(r) == file_name(p@),
{
    let v = chars_of(p);
    assert(v@.take(v@.len() as int) =~= v@);
    let n: usize = tidy_len(&v, v.len());
    let ghost t = v@.take(n as int);
    proof {
        reveal_strlit("/");
    }
    if n == 0 {
        return None;
    }
    if n == 1 && v[0] == '/' {
        assert(t =~= "/"@);
        return None;
    }
    assert(t != "/"@) by {
        if t == "/"@ {
            assert(t.len() == 1 && t[0] == '/');
        }
    }
    let d: usize = dir_len(&v, n);
    let name = string_of(&v, d, n);
    assert(name@ =~= t.subrange(d as int, n as int));
    if same(name.as_str(), "..") || same(name.as_str(), ".") {
        None
    } else {
        Some(name)
    }
}

/// Whether no component of a path is `..`.
pub fn is_path_traversal_safe(p: &str) -> (r: bool)
    ensures
        r == !climbs(p@),
{
    let parts = split_on(p, '/');
    !crate::text::has_string(&parts, "..")
}

/// Whether a canonical path is a canonical directory or stands below it.
pub fn is_within(p: &str, dir: &str) -> (r: bool)
    ensures
        r == within(p@, dir@),
{
    if !starts_with(p, dir) {
        return false;
    }
    let pv = chars_of(p);
    let dv = chars_of(dir);
    let n: usize = dv.len();
    pv.len() == n || n == 0 || dv[n - 1] == '/' || pv[n] == '/'
}

// ── The directory of the agent ──────────────────────────────────────────────────────────────

/// The home directory that the environment names, where it is not blank.
pub open spec fn usable_home(home: Option<Seq<char>>) -> Option<Seq<char>> {
    match home {
        Some(h) => if trim(h).len() > 0 {
            Some(h)
        } else {
            None
        },
        None => None,
    }
}

/// A path with a leading `~` replaced by the home directory, where there is one.
pub open spec fn expanded(path: Seq<char>, home: Option<Seq<char>>) -> Seq<char> {
    match usable_home(home) {
        None => path,
        Some(h) => if path == "~"@ {
            h
        } else if "~/"@.is_prefix_of(path) || "~\\"@.is_prefix_of(path) {
            joined_path(h, path.subrange(2, path.len() as int))
        } else {
            path
        },
    }
}

/// The directory of the agent: the configured one, else `.echo-agent` in the home directory.
pub open spec fn agent_dir(configured: Option<Seq<char>>, home: Option<Seq<char>>) -> Seq<char> {
    match usable_home(configured) {
        Some(p) => expanded(p, home),
        None => match home {
            Some(h) => joined_path(h, ".echo-agent"@),
            None => "~/.echo-agent"@,
        },
    }
}

fn expand_home(path: &str, home: Option<&str>) -> (r: String)
    ensures
        r@ == expanded(
            path@,
            match home {
                Some(h) => Some(h@),
                None => None,
            },
        ),
{
    let h = match home {
        Some(h) => h,
        None => {
            return path.to_owned();
        },
    };
    if trimmed(h).as_str().is_empty() {
        return path.to_owned();
    }
    if same(path, "~") {
        return h.to_owned();
    }
    if starts_with(path, "~/") || starts_with(path, "~\\") {
        proof {
            reveal_strlit("~/");
            reveal_strlit("~\\");
        }
        let v = chars_of(path);
        let rest = string_of(&v, 2, v.len());
        return join_path(h, rest.as_str());
    }
    path.to_owned()
}

/// The directory of the agent, given the configured one and the home directory of the user where
/// the environment names them.
pub fn root_agent_dir(configured: Option<&str>, home: Option<&str>) -> (r: String)
    ensures
        r@ == agent_dir(
            match configured {
                Some(p) => Some(p@),
                None => None,
            },
            match home {
                Some(h) => Some(h@),
                None => None,
            },
        ),
{
    if let Some(p) = configured {
        if !trimmed(p).as_str().is_empty() {
            return expand_home(p, home);
        }
    }
    match home {
        Some(h) => join_path(h, ".echo-agent"),
        None => "~/.echo-agent".to_owned(),
    }
}

/// A file in the directory of the agent.
pub fn root_agent_file(configured: Option<&str>, home: Option<&str>, file_name: &str) -> (r: String)
    ensures
        r@ == joined_path(
            agent_dir(
                match configured {
                    Some(p) => Some(p@),
                    None => None,
                },
                match home {
                    Some(h) => Some(h@),
                    None => None,
                },
            ),
            file_name@,
        ),
{
    let dir = root_agent_dir(configured, home);
    join_path(dir.as_str(), file_name)
}

// ── Laws ────────────────────────────────────────────────────────────────────────────────────

proof fn lemma_split_keeps_tail(s: Seq<char>, t: Seq<char>, c: char)
    requires
        !t.contains(c),
    ensures
        split(s + seq![c] + t, c) == split(s, c).push(t),
    decreases t.len(),
{
    let whole = s + seq![c] + t;
    if t.len() == 0 {
        assert(whole.drop_last() =~= s);
        assert(whole.last() == c);
        assert(t =~= Seq::empty());
    } else {
        let u = t.drop_last();
        assert forall|k: int| 0 <= k < u.len() implies u[k] != c by {
            assert(t[k] == u[k]);
            assert(t.contains(t[k]));
        }
        lemma_split_keeps_tail(s, u, c);
        assert(whole.drop_last() =~= s + seq![c] + u);
        assert(whole.last() == t.last());
        assert(t.contains(t.last()));
        assert(split(s, c).push(u).drop_last() =~= split(s, c));
        assert(u.push(t.last()) =~= t);
    }
}

/// A name without separators below a directory that does not climb does not climb either, unless
/// it is `..` itself.
pub proof fn law_plain_names_do_not_climb(dir: Seq<char>, name: Seq<char>)
    requires
        dir.len() > 0,
        dir.last() != '/',
        !name.contains('/'),
    ensures
        climbs(joined_path(dir, name)) == (climbs(dir) || name == ".."@),
{
    reveal_strlit("/");
    assert("/"@ =~= seq!['/']);
    assert(!absolute(name)) by {
        if absolute(name) {
            assert(name.contains(name[0]));
        }
    }
    lemma_split_keeps_tail(dir, name, '/');
    let parts = split(dir, '/');
    let all = parts.push(name);
    if climbs(dir) {
        let i = choose|i: int| 0 <= i < parts.len() && parts[i] == ".."@;
        assert(all[i] == ".."@);
    }
    if name == ".."@ {
        assert(all[parts.len() as int] == ".."@);
    }
    if all.contains(".."@) {
        let i = choose|i: int| 0 <= i < all.len() && all[i] == ".."@;
        if i < parts.len() {
            assert(parts[i] == ".."@);
        }
    }
}

/// A path that is joined to a directory stands within the directory, if the directory has no
/// separator at its end and the path is relative.
pub proof fn law_joined_path_is_within(dir: Seq<char>, rel: Seq<char>)
    requires
        !absolute(rel),
    ensures
        within(joined_path(dir, rel), dir),
{
    reveal_strlit("/");
    let p = joined_path(dir, rel);
    assert(p.subrange(0, dir.len() as int) =~= dir);
}

/// The last component of a path is its file name, and what stands before it is its parent.
pub proof fn law_paths_come_apart_where_they_were_joined(dir: Seq<char>, name: Seq<char>)
    requires
        dir.len() > 0,
        dir.last() != '/',
        !(dir.len() > 1 && dir.last() == '.' && dir[dir.len() - 2] == '/'),
        name.len() > 0,
        !name.contains('/'),
        name != "."@,
        name != ".."@,
    ensures
        joined_path(dir, name) == dir + seq!['/'] + name,
        file_name(joined_path(dir, name)) == Some(name),
        parent(joined_path(dir, name)) == Some(dir),
        file_name(name) == Some(name),
{
    reveal_strlit("/");
    reveal_strlit(".");
    assert("/"@ =~= seq!['/']);
    assert(name.contains(name[0]) && name.contains(name.last()));
    let p = dir + seq!['/'] + name;
    assert(joined_path(dir, name) =~= p);
    if name.last() == '.' && p[p.len() - 2] == '/' {
        if name.len() > 1 {
            assert(p[p.len() - 2] == name[name.len() - 2]);
            assert(name.contains(name[name.len() - 2]));
        }
        assert(name =~= "."@);
    }
    assert(tidy(p) == p);
    lemma_dir_part(dir + seq!['/'], name);
    let d = dir + seq!['/'];
    assert(d + name =~= p);
    assert(dir_part(p) == d);
    assert(p.subrange(d.len() as int, p.len() as int) =~= name);
    assert(d.drop_last() =~= dir);
    assert(tidy(dir) == dir);
    assert(tidy(d) == dir);
    assert(p.len() > 1 && "/"@.len() == 1);
    if name.len() > 1 && name.last() == '.' && name[name.len() - 2] == '/' {
        assert(name.contains(name[name.len() - 2]));
    }
    assert(tidy(name) == name);
    lemma_dir_part(Seq::empty(), name);
    assert(Seq::<char>::empty() + name =~= name);
    assert(name.subrange(0, name.len() as int) =~= name);
    if name == "/"@ {
        assert(name[0] == '/');
    }
}

proof fn lemma_dir_part(dir: Seq<char>, name: Seq<char>)
    requires
        dir.len() == 0 || dir.last() == '/',
        !name.contains('/'),
    ensures
        dir_part(dir + name) == dir,
    decreases name.len(),
{
    if name.len() == 0 {
        assert(dir + name =~= dir);
    } else {
        assert(name.contains(name.last()));
        let t = name.drop_last();
        assert forall|i: int| 0 <= i < t.len() implies t[i] != '/' by {
            assert(name.contains(name[i]));
        }
        assert((dir + name).drop_last() =~= dir + t);
        lemma_dir_part(dir, t);
    }
}

/// A path climbs exactly where one of the two paths that it is made of does.
pub proof fn law_joined_paths_climb_where_a_part_does(a: Seq<char>, b: Seq<char>)
    ensures
        climbs(a + seq!['/'] + b) == (climbs(a) || climbs(b)),
        climbs(".."@),
{
    law_text_is_split_at_each(a, b, '/');
    let x = split(a, '/');
    let y = split(b, '/');
    let up = ".."@;
    if x.contains(up) {
        assert((x + y)[x.index_of(up)] == up);
    }
    if y.contains(up) {
        assert((x + y)[x.len() + y.index_of(up)] == up);
    }
    if (x + y).contains(up) {
        let i = (x + y).index_of(up);
        if i < x.len() {
            assert(x[i] == up);
        } else {
            assert(y[i - x.len()] == up);
        }
    }
    reveal_strlit("..");
    law_text_is_split_at_each(up, Seq::empty(), '/');
    assert(seq![up][0] == up);
}

/// A path that begins with a tilde stands below the home directory, where that is known; any other path
/// stays.
pub proof fn law_tilde_stands_for_home(home: Seq<char>, rest: Seq<char>, plain: Seq<char>)
    requires
        trim(home).len() > 0,
        plain.len() > 0 ==> plain[0] != '~',
    ensures
        expanded("~"@, Some(home)) == home,
        expanded("~/"@ + rest, Some(home)) == joined_path(home, rest),
        expanded(plain, Some(home)) == plain,
        expanded("~/"@ + rest, None) == "~/"@ + rest,
{
    reveal_strlit("~");
    reveal_strlit("~/");
    reveal_strlit("~\\");
    let p = "~/"@ + rest;
    assert("~/"@ =~= p.take(2));
    assert(p.len() >= 2 && "~"@.len() == 1);
    assert(p.subrange(2, p.len() as int) =~= rest);
    if "~/"@.is_prefix_of(plain) {
        assert("~/"@[0] == plain[0]);
    }
    if "~\\"@.is_prefix_of(plain) {
        assert("~\\"@[0] == plain[0]);
    }
    if plain == "~"@ {
        assert(plain[0] == '~');
    }
}

/// A path is within a directory where it is the directory or goes on behind a separator; one whose name
/// merely begins like that of the directory is not, and nothing outside is.
pub proof fn law_neighbours_are_not_within(dir: Seq<char>, rest: Seq<char>, p: Seq<char>)
    requires
        dir.len() > 0,
        dir.last() != '/',
        rest.len() > 0,
    ensures
        within(dir, dir),
        within(dir + rest, dir) == (rest[0] == '/'),
        !dir.is_prefix_of(p) ==> !within(p, dir),
{
    let s = dir + rest;
    assert(dir =~= s.take(dir.len() as int));
    assert(dir =~= dir.take(dir.len() as int));
    assert(s[dir.len() as int] == rest[0]);
}

} // verus!
