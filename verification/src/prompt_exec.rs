//! Skill bodies: variables, commands within the text, and what replaces them.
//!
//! A body may hold commands in two forms, a block fenced by three backquotes with an exclamation
//! mark behind the first fence, and an inline command in backquotes behind an exclamation mark at
//! the beginning of the text or behind white space.

use vstd::prelude::*;
use crate::text::{
    chars_of, concat, contains, contains_str, decimal, decimal_int, digit, find_from, find_pos, is_white,
    is_white_char, join, joined, lemma_find_from, lemma_find_shift, lemma_replace_behind,
    lemma_replace_here, number, number_signed,
    occurs_at, replace, replaced,
    string_of, strs, trim, trim_end, trim_start, trimmed,
};

verus! {

/// Where a skill comes from.
#[derive(Debug, Clone, Copy, PartialEq, Eq, Structural)]
pub enum SkillSource {
    /// The local file system; trusted.
    Local,
    /// A remote server; not trusted, so no command is run.
    Mcp,
}

/// Time limit of a command within a skill, in milliseconds.
pub const DEFAULT_CMD_TIMEOUT_MS: u64 = 10_000;

/// What a skill body is processed with.
pub struct PromptContext {
    /// Directory of the skill.
    pub skill_dir: String,
    /// Session identifier.
    pub session_id: String,
    /// Arguments of the user.
    pub arguments: Vec<String>,
    /// Preferred shell.
    pub shell: Option<String>,
    /// Time limit of each command in milliseconds.
    pub timeout_ms: u64,
    /// Where the skill comes from.
    pub source: SkillSource,
}

impl Default for PromptContext {
    fn default() -> (r: PromptContext)
        ensures
            r.skill_dir@.len() == 0,
            r.session_id@.len() == 0,
            r.arguments@.len() == 0,
            r.shell is None,
            r.timeout_ms == DEFAULT_CMD_TIMEOUT_MS,
            r.source == SkillSource::Local,
    {
        PromptContext {
            skill_dir: String::new(),
            session_id: String::new(),
            arguments: Vec::new(),
            shell: None,
            timeout_ms: DEFAULT_CMD_TIMEOUT_MS,
            source: SkillSource::Local,
        }
    }
}

// ── Variables ───────────────────────────────────────────────────────────────────────────────

/// The text with the first `n` positional arguments filled in, one after the other.
pub open spec fn positional(s: Seq<char>, args: Seq<Seq<char>>, n: int) -> Seq<char>
    decreases n,
{
    if n <= 0 {
        s
    } else {
        replace(
            positional(s, args, n - 1),
            "${"@ + decimal(n as nat) + "}"@,
            args[n - 1],
        )
    }
}

/// The text with all variables filled in, one kind after the other.
pub open spec fn substituted(
    s: Seq<char>,
    dir: Seq<char>,
    session: Seq<char>,
    args: Seq<Seq<char>>,
) -> Seq<char> {
    let a = replace(s, "${SKILL_DIR}"@, dir);
    let b = replace(a, "${CLAUDE_SKILL_DIR}"@, dir);
    let c = replace(b, "${SESSION_ID}"@, session);
    let d = replace(c, "${CLAUDE_SESSION_ID}"@, session);
    let e = replace(d, "${ARGUMENTS}"@, join(args, " "@));
    positional(e, args, args.len() as int)
}

/// The text with the variables of a context filled in.
pub open spec fn substituted_in(s: Seq<char>, ctx: PromptContext) -> Seq<char> {
    substituted(s, ctx.skill_dir@, ctx.session_id@, strs(ctx.arguments@))
}

/// The text with all variables filled in.
pub fn substitute_variables(content: &str, ctx: &PromptContext) -> (r: String)
    ensures
        r@ == substituted_in(content@, *ctx),
{
    proof {
        reveal_strlit("${SKILL_DIR}");
        reveal_strlit("${CLAUDE_SKILL_DIR}");
        reveal_strlit("${SESSION_ID}");
        reveal_strlit("${CLAUDE_SESSION_ID}");
        reveal_strlit("${ARGUMENTS}");
        reveal_strlit("${");
    }
    let a = replaced(content, "${SKILL_DIR}", ctx.skill_dir.as_str());
    let b = replaced(a.as_str(), "${CLAUDE_SKILL_DIR}", ctx.skill_dir.as_str());
    let c = replaced(b.as_str(), "${SESSION_ID}", ctx.session_id.as_str());
    let d = replaced(c.as_str(), "${CLAUDE_SESSION_ID}", ctx.session_id.as_str());
    let all = joined(&ctx.arguments, " ");
    let e = replaced(d.as_str(), "${ARGUMENTS}", all.as_str());
    let ghost args = strs(ctx.arguments@);
    let ghost start = e@;
    let mut result = e;
    let mut i: usize = 0;
    while i < ctx.arguments.len()
        invariant
            "${"@.len() > 0,
            args == strs(ctx.arguments@),
            i <= ctx.arguments.len(),
            result@ == positional(start, args, i as int),
        decreases ctx.arguments.len() - i,
    {
        let mut name = concat("${", number(i as u64 + 1).as_str());
        name.push_str("}");
        assert(args[i as int] == ctx.arguments@[i as int]@);
        result = replaced(result.as_str(), name.as_str(), ctx.arguments[i].as_str());
        i = i + 1;
    }
    result
}

// ── Commands within a text ──────────────────────────────────────────────────────────────────

/// A command within a text: where it stands, what it is, and which form it has.
pub struct CmdRegion {
    pub start: usize,
    pub end: usize,
    pub command_text: String,
    pub is_block: bool,
}

/// A command within a text.
pub struct RegionView {
    pub start: int,
    pub end: int,
    pub command: Seq<char>,
    pub is_block: bool,
}

impl View for CmdRegion {
    type V = RegionView;

    open spec fn view(&self) -> RegionView {
        RegionView {
            start: self.start as int,
            end: self.end as int,
            command: self.command_text@,
            is_block: self.is_block,
        }
    }
}

/// What each command of a list is.
pub open spec fn region_views(v: Seq<CmdRegion>) -> Seq<RegionView> {
    v.map_values(|r: CmdRegion| r@)
}

/// The first block at or after `from`: the next opening fence, and the next fence behind it.
pub open spec fn block_from(s: Seq<char>, from: int) -> Option<RegionView> {
    match find_from(s, "```!"@, from) {
        Some(a) => match find_from(s, "```"@, a + 4) {
            Some(b) => Some(
                RegionView {
                    start: a,
                    end: b + 3,
                    command: trim(s.subrange(a + 4, b)),
                    is_block: true,
                },
            ),
            None => None,
        },
        None => None,
    }
}

/// All blocks at or after `from`, each behind the end of the one before it.
pub open spec fn blocks_from(s: Seq<char>, from: int) -> Seq<RegionView>
    decreases s.len() - from,
{
    match block_from(s, from) {
        Some(r) => if from < r.end <= s.len() {
            seq![r] + blocks_from(s, r.end)
        } else {
            seq![r]
        },
        None => Seq::empty(),
    }
}

/// The position of the first backquote at or after `from`.
pub open spec fn tick_from(s: Seq<char>, from: int) -> Option<int>
    decreases s.len() - from,
{
    if from < 0 || from >= s.len() {
        None
    } else if s[from] == '`' {
        Some(from)
    } else {
        tick_from(s, from + 1)
    }
}

/// Where the text of an inline command at `i` begins: behind the mark and the backquote, which
/// stand at the beginning of the whole text or behind white space.
pub open spec fn inline_open(s: Seq<char>, i: int) -> Option<int> {
    if i == 0 && s.len() >= 2 && s[0] == '!' && s[1] == '`' {
        Some(2)
    } else if 0 <= i && i + 2 < s.len() && is_white(s[i]) && s[i + 1] == '!' && s[i + 2] == '`' {
        Some(i + 3)
    } else {
        None
    }
}

/// The inline command at `i`.
pub open spec fn inline_at(s: Seq<char>, i: int) -> Option<RegionView> {
    match inline_open(s, i) {
        Some(o) => match tick_from(s, o) {
            Some(j) => if j > o {
                Some(
                    RegionView {
                        start: i,
                        end: j + 1,
                        command: trim(s.subrange(o, j)),
                        is_block: false,
                    },
                )
            } else {
                None
            },
            None => None,
        },
        None => None,
    }
}

/// All inline commands at or after `from`, each behind the end of the one before it.
pub open spec fn inlines_from(s: Seq<char>, from: int) -> Seq<RegionView>
    decreases s.len() - from,
{
    if from < 0 || from >= s.len() {
        Seq::empty()
    } else {
        match inline_at(s, from) {
            Some(r) => if from < r.end <= s.len() {
                seq![r] + inlines_from(s, r.end)
            } else {
                seq![r]
            },
            None => inlines_from(s, from + 1),
        }
    }
}

/// Two lists of commands, each in order, brought into one; blocks go first where two commands
/// begin at one place.
pub open spec fn interleaved(a: Seq<RegionView>, b: Seq<RegionView>) -> Seq<RegionView>
    decreases a.len() + b.len(),
{
    if a.len() == 0 {
        b
    } else if b.len() == 0 {
        a
    } else if a[0].start <= b[0].start {
        seq![a[0]] + interleaved(a.drop_first(), b)
    } else {
        seq![b[0]] + interleaved(a, b.drop_first())
    }
}

/// All commands within a text, by where they begin.
pub open spec fn regions_of(s: Seq<char>) -> Seq<RegionView> {
    interleaved(blocks_from(s, 0), inlines_from(s, 0))
}

/// Whether each command ends before the next one begins, and the last before the end.
pub open spec fn apart(r: Seq<RegionView>, from: int, len: int) -> bool
    decreases r.len(),
{
    if r.len() == 0 {
        from <= len
    } else {
        from <= r[0].start && apart(r.drop_first(), r[0].end, len)
    }
}

fn next_tick(v: &Vec<char>, from: usize) -> (r: Option<usize>)
    ensures
        match r {
            Some(j) => tick_from(v@, from as int) == Some(j as int) && from <= j < v.len(),
            None => tick_from(v@, from as int) is None,
        },
{
    let mut i: usize = from;
    while i < v.len()
        invariant
            from <= i,
            i <= v.len() || i == from,
            tick_from(v@, from as int) == tick_from(v@, i as int),
        decreases v.len() - i,
    {
        if v[i] == '`' {
            return Some(i);
        }
        i = i + 1;
    }
    None
}

fn find_blocks(v: &Vec<char>) -> (r: Vec<CmdRegion>)
    ensures
        region_views(r@) == blocks_from(v@, 0),
{
    let open = chars_of("```!");
    let close = chars_of("```");
    proof {
        reveal_strlit("```!");
        reveal_strlit("```");
    }
    let mut out: Vec<CmdRegion> = Vec::new();
    let mut pos: usize = 0;
    assert(region_views(out@) =~= Seq::<RegionView>::empty());
    assert(Seq::<RegionView>::empty() + blocks_from(v@, 0) =~= blocks_from(v@, 0));
    loop
        invariant
            open@ == "```!"@,
            close@ == "```"@,
            open@.len() == 4,
            close@.len() == 3,
            pos <= v.len(),
            blocks_from(v@, 0) == region_views(out@) + blocks_from(v@, pos as int),
        decreases v.len() - pos,
    {
        let ghost before = region_views(out@);
        proof {
            lemma_find_from(v@, open@, pos as int);
        }
        let a: usize = match find_pos(v, &open, pos) {
            Some(a) => a,
            None => {
                assert(blocks_from(v@, pos as int) =~= Seq::<RegionView>::empty());
                assert(before + Seq::<RegionView>::empty() =~= before);
                return out;
            },
        };
        proof {
            lemma_find_from(v@, close@, a + 4);
        }
        let b: usize = match find_pos(v, &close, a + 4) {
            Some(b) => b,
            None => {
                assert(blocks_from(v@, pos as int) =~= Seq::<RegionView>::empty());
                assert(before + Seq::<RegionView>::empty() =~= before);
                return out;
            },
        };
        let text = string_of(v, a + 4, b);
        let region = CmdRegion {
            start: a,
            end: b + 3,
            command_text: trimmed(text.as_str()),
            is_block: true,
        };
        let ghost prev = out@;
        out.push(region);
        proof {
            assert(block_from(v@, pos as int) == Some(region@));
            assert(region_views(out@) =~= region_views(prev).push(region@));
            assert(before + (seq![region@] + blocks_from(v@, b + 3)) =~= region_views(out@)
                + blocks_from(v@, b + 3));
        }
        pos = b + 3;
    }
}

fn inline_start(v: &Vec<char>, i: usize) -> (r: Option<usize>)
    requires
        i < v.len(),
    ensures
        match r {
            Some(o) => inline_open(v@, i as int) == Some(o as int) && o <= v.len(),
            None => inline_open(v@, i as int) is None,
        },
{
    let n: usize = v.len();
    if i == 0 && n >= 2 && v[0] == '!' && v[1] == '`' {
        Some(2)
    } else if n > 2 && i < n - 2 && is_white_char(v[i]) && v[i + 1] == '!' && v[i + 2] == '`' {
        Some(i + 3)
    } else {
        None
    }
}

fn find_inlines(v: &Vec<char>) -> (r: Vec<CmdRegion>)
    ensures
        region_views(r@) == inlines_from(v@, 0),
{
    let mut out: Vec<CmdRegion> = Vec::new();
    let mut pos: usize = 0;
    assert(region_views(out@) =~= Seq::<RegionView>::empty());
    assert(Seq::<RegionView>::empty() + inlines_from(v@, 0) =~= inlines_from(v@, 0));
    while pos < v.len()
        invariant
            pos <= v.len(),
            inlines_from(v@, 0) == region_views(out@) + inlines_from(v@, pos as int),
        decreases v.len() - pos,
    {
        let ghost before = region_views(out@);
        let found: Option<(usize, usize)> = match inline_start(v, pos) {
            Some(o) => match next_tick(v, o) {
                Some(j) => if j > o {
                    Some((o, j))
                } else {
                    None
                },
                None => None,
            },
            None => None,
        };
        match found {
            Some((o, j)) => {
                let text = string_of(v, o, j);
                let region = CmdRegion {
                    start: pos,
                    end: j + 1,
                    command_text: trimmed(text.as_str()),
                    is_block: false,
                };
                let ghost prev = out@;
                out.push(region);
                proof {
                    assert(inline_at(v@, pos as int) == Some(region@));
                    assert(region_views(out@) =~= region_views(prev).push(region@));
                    assert(before + (seq![region@] + inlines_from(v@, j + 1)) =~= region_views(
                        out@,
                    ) + inlines_from(v@, j + 1));
                }
                pos = j + 1;
            },
            None => {
                assert(inline_at(v@, pos as int) is None);
                pos = pos + 1;
            },
        }
    }
    assert(inlines_from(v@, pos as int) =~= Seq::<RegionView>::empty());
    assert(region_views(out@) + Seq::<RegionView>::empty() =~= region_views(out@));
    out
}

fn copy_region(r: &CmdRegion) -> (c: CmdRegion)
    ensures
        c@ == r@,
{
    CmdRegion {
        start: r.start,
        end: r.end,
        command_text: r.command_text.clone(),
        is_block: r.is_block,
    }
}

fn interleave(a: &Vec<CmdRegion>, b: &Vec<CmdRegion>) -> (r: Vec<CmdRegion>)
    ensures
        region_views(r@) == interleaved(region_views(a@), region_views(b@)),
{
    let ghost x = region_views(a@);
    let ghost y = region_views(b@);
    let mut out: Vec<CmdRegion> = Vec::new();
    let mut i: usize = 0;
    let mut j: usize = 0;
    assert(x.subrange(0, x.len() as int) =~= x);
    assert(y.subrange(0, y.len() as int) =~= y);
    assert(region_views(out@) + interleaved(x, y) =~= interleaved(x, y));
    while i < a.len() || j < b.len()
        invariant
            x == region_views(a@),
            y == region_views(b@),
            i <= a.len(),
            j <= b.len(),
            interleaved(x, y) == region_views(out@) + interleaved(
                x.subrange(i as int, x.len() as int),
                y.subrange(j as int, y.len() as int),
            ),
        decreases a.len() - i + b.len() - j,
    {
        let ghost p = x.subrange(i as int, x.len() as int);
        let ghost q = y.subrange(j as int, y.len() as int);
        let ghost prev = out@;
        let from_a = j >= b.len() || (i < a.len() && a[i].start <= b[j].start);
        proof {
            if i < a.len() {
                assert(p[0] == x[i as int]);
                assert(p.drop_first() =~= x.subrange(i + 1, x.len() as int));
            }
            if j < b.len() {
                assert(q[0] == y[j as int]);
                assert(q.drop_first() =~= y.subrange(j + 1, y.len() as int));
            }
        }
        if from_a {
            let c = copy_region(&a[i]);
            out.push(c);
            proof {
                let rest = interleaved(p.drop_first(), q);
                assert(region_views(out@) =~= region_views(prev).push(c@));
                if q.len() == 0 {
                    assert(interleaved(p, q) == p);
                    assert(rest =~= p.drop_first());
                    assert(p =~= seq![p[0]] + p.drop_first());
                }
                assert(interleaved(p, q) =~= seq![p[0]] + rest);
                assert(region_views(prev) + (seq![p[0]] + rest) =~= region_views(out@) + rest);
            }
            i = i + 1;
        } else {
            let c = copy_region(&b[j]);
            out.push(c);
            proof {
                let rest = interleaved(p, q.drop_first());
                assert(region_views(out@) =~= region_views(prev).push(c@));
                if p.len() == 0 {
                    assert(q =~= seq![q[0]] + q.drop_first());
                }
                assert(interleaved(p, q) =~= seq![q[0]] + rest);
                assert(region_views(prev) + (seq![q[0]] + rest) =~= region_views(out@) + rest);
            }
            j = j + 1;
        }
    }
    assert(region_views(out@) + Seq::<RegionView>::empty() =~= region_views(out@));
    out
}

/// All commands within a text, by where they begin.
pub fn extract_command_regions(content: &str) -> (r: Vec<CmdRegion>)
    ensures
        region_views(r@) == regions_of(content@),
{
    let v = chars_of(content);
    let blocks = find_blocks(&v);
    let inlines = find_inlines(&v);
    interleave(&blocks, &inlines)
}

/// Whether a text holds the mark of a command: an opening fence, or an inline command, which may
/// be empty.
pub open spec fn marked(s: Seq<char>) -> bool {
    contains(s, "```!"@) || exists|i: int| #[trigger] inline_mark(s, i)
}

/// Whether an inline command, which may be empty, stands at `i`.
pub open spec fn inline_mark(s: Seq<char>, i: int) -> bool {
    inline_open(s, i) is Some && tick_from(s, inline_open(s, i)->0) is Some
}

/// Whether a text holds the mark of a command.
pub fn has_command_markers(content: &str) -> (r: bool)
    ensures
        r == marked(content@),
{
    if contains_str(content, "```!") {
        return true;
    }
    let v = chars_of(content);
    let mut i: usize = 0;
    while i < v.len()
        invariant
            v@ == content@,
            i <= v.len(),
            forall|k: int| 0 <= k < i ==> !#[trigger] inline_mark(content@, k),
        decreases v.len() - i,
    {
        if let Some(o) = inline_start(&v, i) {
            if next_tick(&v, o).is_some() {
                assert(inline_mark(content@, i as int));
                return true;
            }
        }
        i = i + 1;
    }
    assert forall|k: int| !#[trigger] inline_mark(content@, k) by {
        if k < 0 || k >= v.len() {
            assert(inline_open(content@, k) is None);
        }
    }
    false
}

// ── Processing ──────────────────────────────────────────────────────────────────────────────

/// What stands for command `i` while the text around it is processed.
pub open spec fn placeholder(i: nat) -> Seq<char> {
    "\u{1}CMD_OUT_"@ + decimal(i) + "\u{1}"@
}

/// The text at or after `from` with each command replaced by its placeholder; `n` is the number of
/// the first of them.
pub open spec fn shielded(s: Seq<char>, r: Seq<RegionView>, from: int, n: nat) -> Seq<char>
    decreases r.len(),
{
    if r.len() == 0 {
        s.subrange(from, s.len() as int)
    } else {
        s.subrange(from, r[0].start) + placeholder(n) + shielded(
            s,
            r.drop_first(),
            r[0].end,
            n + 1,
        )
    }
}

/// What replaces a command: the output of a block; the output of an inline command without
/// surrounding white space, behind the white space that stood before the command.
pub open spec fn replacement(s: Seq<char>, r: RegionView, output: Seq<char>) -> Seq<char> {
    if r.is_block {
        output
    } else {
        leading_white(s.subrange(r.start, r.end)) + trim(output)
    }
}

/// The white space at the beginning of a text.
pub open spec fn leading_white(s: Seq<char>) -> Seq<char>
    decreases s.len(),
{
    if s.len() > 0 && is_white(s[0]) {
        seq![s[0]] + leading_white(s.drop_first())
    } else {
        Seq::empty()
    }
}

/// The text with the placeholders of the first `n` commands replaced, the last one first.
pub open spec fn filled(
    t: Seq<char>,
    s: Seq<char>,
    r: Seq<RegionView>,
    outputs: Seq<Seq<char>>,
    n: int,
) -> Seq<char>
    decreases n,
{
    if n <= 0 {
        t
    } else {
        filled(
            replace(t, placeholder((n - 1) as nat), replacement(s, r[n - 1], outputs[n - 1])),
            s,
            r,
            outputs,
            n - 1,
        )
    }
}

fn placeholder_of(i: usize) -> (r: String)
    ensures
        r@ == placeholder(i as nat),
        r@.len() > 0,
{
    proof {
        reveal_strlit("\u{1}CMD_OUT_");
    }
    let mut r = concat("\u{1}CMD_OUT_", number(i as u64).as_str());
    r.push_str("\u{1}");
    r
}

/// What `regex` leaves of a text when every match of a pattern is taken out; the text itself where
/// the pattern does not compile.
pub uninterp spec fn regex_removed(pattern: Seq<char>, text: Seq<char>) -> Seq<char>;

/// `regex::Regex::replace_all` with the empty text.
#[verifier::external_body]
fn remove_matches(pattern: &str, text: &str) -> (r: String)
    ensures
        r@ == regex_removed(pattern@, text@),
{
    match regex::Regex::new(pattern) {
        Ok(p) => p.replace_all(text, "").to_string(),
        Err(_) => text.to_string(),
    }
}

/// The pattern of placeholders.
pub const PLACEHOLDER_PATTERN: &'static str = r"\x01CMD_OUT_\d+\x01";

/// The text without placeholders.
pub fn strip_placeholders(content: &str) -> (r: String)
    ensures
        r@ == regex_removed(PLACEHOLDER_PATTERN@, content@),
{
    remove_matches(PLACEHOLDER_PATTERN, content)
}

/// Whether the commands within a text overlap, so that it cannot be processed.
pub fn commands_overlap(content: &str) -> (r: bool)
    ensures
        r == !apart(regions_of(content@), 0, content@.len() as int),
{
    let regions = extract_command_regions(content);
    let ghost all = region_views(regions@);
    let n: usize = chars_of(content).len();
    let mut pos: usize = 0;
    let mut i: usize = 0;
    assert(all.subrange(0, all.len() as int) =~= all);
    while i < regions.len()
        invariant
            all == region_views(regions@),
            all == regions_of(content@),
            n == content@.len(),
            i <= regions.len(),
            apart(all, 0, n as int) == apart(
                all.subrange(i as int, all.len() as int),
                pos as int,
                n as int,
            ),
        decreases regions.len() - i,
    {
        let ghost t = all.subrange(i as int, all.len() as int);
        assert(t[0] == regions@[i as int]@);
        assert(t.drop_first() =~= all.subrange(i + 1, all.len() as int));
        if pos > regions[i].start {
            return true;
        }
        pos = regions[i].end;
        i = i + 1;
    }
    pos > n
}

/// The text with each command replaced by its placeholder.
fn shield(content: &str, regions: &Vec<CmdRegion>) -> (r: String)
    requires
        apart(region_views(regions@), 0, content@.len() as int),
        forall|i: int| 0 <= i < regions.len() ==> (#[trigger] regions@[i]).start <= regions@[i].end,
    ensures
        r@ == shielded(content@, region_views(regions@), 0, 0),
{
    let v = chars_of(content);
    let ghost all = region_views(regions@);
    let ghost s = content@;
    let mut out = String::new();
    let mut pos: usize = 0;
    let mut i: usize = 0;
    assert(all.subrange(0, all.len() as int) =~= all);
    assert(out@ + shielded(s, all, 0, 0) =~= shielded(s, all, 0, 0));
    while i < regions.len()
        invariant
            v@ == s,
            s == content@,
            all == region_views(regions@),
            forall|i: int|
                0 <= i < regions.len() ==> (#[trigger] regions@[i]).start <= regions@[i].end,
            i <= regions.len(),
            apart(all.subrange(i as int, all.len() as int), pos as int, s.len() as int),
            shielded(s, all, 0, 0) == out@ + shielded(
                s,
                all.subrange(i as int, all.len() as int),
                pos as int,
                i as nat,
            ),
        decreases regions.len() - i,
    {
        let ghost t = all.subrange(i as int, all.len() as int);
        let ghost before = out@;
        proof {
            assert(t[0] == regions@[i as int]@);
            assert(t.drop_first() =~= all.subrange(i + 1, all.len() as int));
            lemma_apart_bound(t.drop_first(), t[0].end, s.len() as int, all, i + 1);
        }
        let piece = string_of(&v, pos, regions[i].start);
        let mark = placeholder_of(i);
        out.push_str(piece.as_str());
        out.push_str(mark.as_str());
        proof {
            let rest = shielded(s, t.drop_first(), t[0].end, (i + 1) as nat);
            assert(before + (piece@ + mark@ + rest) =~= out@ + rest);
        }
        pos = regions[i].end;
        i = i + 1;
    }
    let piece = string_of(&v, pos, v.len());
    assert(all.subrange(i as int, all.len() as int) =~= Seq::<RegionView>::empty());
    out.push_str(piece.as_str());
    out
}

/// Commands that are apart begin and end within the text.
proof fn lemma_apart_bound(
    t: Seq<RegionView>,
    from: int,
    len: int,
    all: Seq<RegionView>,
    i: int,
)
    requires
        apart(t, from, len),
        0 <= i <= all.len(),
        t == all.subrange(i, all.len() as int),
        forall|k: int| 0 <= k < all.len() ==> (#[trigger] all[k]).start <= all[k].end,
    ensures
        from <= len,
    decreases t.len(),
{
    if t.len() > 0 {
        assert(t[0] == all[i]);
        assert(t.drop_first() =~= all.subrange(i + 1, all.len() as int));
        lemma_apart_bound(t.drop_first(), t[0].end, len, all, i + 1);
    }
}

/// How the processing of a body goes on.
pub enum SkillStep {
    /// This is the processed body.
    Done(String),
    /// The commands are to be run in order, and their outputs put into the text.
    Run { text: String, commands: Vec<String> },
}

/// The commands of a list.
pub open spec fn region_commands(r: Seq<RegionView>) -> Seq<Seq<char>> {
    r.map_values(|x: RegionView| x.command)
}

/// The body of a local skill with its commands shielded and its variables filled in.
pub open spec fn shielded_body(s: Seq<char>, ctx: PromptContext) -> Seq<char> {
    substituted_in(shielded(s, regions_of(s), 0, 0), ctx)
}

/// Whether each command ends behind its beginning.
pub open spec fn forward(r: Seq<RegionView>) -> bool {
    forall|i: int| 0 <= i < r.len() ==> (#[trigger] r[i]).start <= r[i].end
}

proof fn lemma_forward_cons(x: RegionView, rest: Seq<RegionView>)
    requires
        x.start <= x.end,
        forward(rest),
    ensures
        forward(seq![x] + rest),
{
    let all = seq![x] + rest;
    assert forall|i: int| 0 <= i < all.len() implies (#[trigger] all[i]).start <= all[i].end by {
        if i > 0 {
            assert(all[i] == rest[i - 1]);
        }
    }
}

proof fn lemma_blocks_ordered(s: Seq<char>, from: int)
    requires
        0 <= from <= s.len(),
    ensures
        forward(blocks_from(s, from)),
    decreases s.len() - from,
{
    reveal_strlit("```!");
    reveal_strlit("```");
    lemma_find_from(s, "```!"@, from);
    if let Some(r) = block_from(s, from) {
        lemma_find_from(s, "```"@, r.start + 4);
        assert(r.start + 4 <= r.end - 3);
        lemma_blocks_ordered(s, r.end);
        lemma_forward_cons(r, blocks_from(s, r.end));
    }
}

proof fn lemma_tick(s: Seq<char>, from: int)
    requires
        0 <= from,
    ensures
        tick_from(s, from) matches Some(j) ==> from <= j < s.len(),
    decreases s.len() - from,
{
    if from < s.len() && s[from] != '`' {
        lemma_tick(s, from + 1);
    }
}

proof fn lemma_inlines_ordered(s: Seq<char>, from: int)
    requires
        0 <= from,
    ensures
        forward(inlines_from(s, from)),
    decreases s.len() - from,
{
    if from < s.len() {
        match inline_at(s, from) {
            Some(r) => {
                lemma_tick(s, inline_open(s, from)->0);
                lemma_inlines_ordered(s, r.end);
                lemma_forward_cons(r, inlines_from(s, r.end));
            },
            None => {
                lemma_inlines_ordered(s, from + 1);
            },
        }
    }
}

proof fn lemma_interleaved_ordered(a: Seq<RegionView>, b: Seq<RegionView>)
    requires
        forward(a),
        forward(b),
    ensures
        forward(interleaved(a, b)),
    decreases a.len() + b.len(),
{
    if a.len() > 0 && b.len() > 0 {
        if a[0].start <= b[0].start {
            assert(forward(a.drop_first()));
            lemma_interleaved_ordered(a.drop_first(), b);
            lemma_forward_cons(a[0], interleaved(a.drop_first(), b));
        } else {
            assert(forward(b.drop_first()));
            lemma_interleaved_ordered(a, b.drop_first());
            lemma_forward_cons(b[0], interleaved(a, b.drop_first()));
        }
    }
}

/// The commands that are run for a body: those of the body itself, or none where the skill comes
/// from outside or its variables bring a command into the text.
pub open spec fn commands_run(content: Seq<char>, ctx: PromptContext) -> Seq<Seq<char>> {
    if ctx.source == SkillSource::Mcp || marked(shielded_body(content, ctx)) {
        Seq::empty()
    } else {
        region_commands(regions_of(content))
    }
}

/// Begins the processing of a body.
///
/// The commands are taken out before variables are filled in, so that no argument can change one.
/// Where filling in the variables brings a new command into the text, none is run.
pub fn begin_skill_content(content: &str, ctx: &PromptContext) -> (r: SkillStep)
    requires
        ctx.source == SkillSource::Local ==> apart(
            regions_of(content@),
            0,
            content@.len() as int,
        ),
    ensures
        match r {
            SkillStep::Done(t) => commands_run(content@, *ctx).len() == 0 && if ctx.source
                == SkillSource::Mcp {
                t@ == substituted_in(content@, *ctx)
            } else {
                marked(shielded_body(content@, *ctx)) && t@ == regex_removed(
                    PLACEHOLDER_PATTERN@,
                    shielded_body(content@, *ctx),
                )
            },
            SkillStep::Run { text, commands } => ctx.source == SkillSource::Local && !marked(
                shielded_body(content@, *ctx),
            ) && text@ == shielded_body(content@, *ctx) && strs(commands@) == commands_run(
                content@,
                *ctx,
            ),
        },
{
    if ctx.source == SkillSource::Mcp {
        return SkillStep::Done(substitute_variables(content, ctx));
    }
    let regions = extract_command_regions(content);
    proof {
        let all = regions_of(content@);
        lemma_blocks_ordered(content@, 0);
        lemma_inlines_ordered(content@, 0);
        lemma_interleaved_ordered(blocks_from(content@, 0), inlines_from(content@, 0));
        assert forall|i: int| 0 <= i < regions.len() implies (#[trigger] regions@[i]).start
            <= regions@[i].end by {
            assert(all[i] == regions@[i]@);
        }
    }
    let safe = shield(content, &regions);
    let text = substitute_variables(safe.as_str(), ctx);
    if has_command_markers(text.as_str()) {
        return SkillStep::Done(strip_placeholders(text.as_str()));
    }
    let mut commands: Vec<String> = Vec::new();
    let mut i: usize = 0;
    while i < regions.len()
        invariant
            i <= regions.len(),
            commands.len() == i,
            forall|k: int| 0 <= k < i ==> (#[trigger] commands@[k])@ == regions@[k].command_text@,
        decreases regions.len() - i,
    {
        commands.push(regions[i].command_text.clone());
        i = i + 1;
    }
    assert(strs(commands@) =~= region_commands(region_views(regions@)));
    SkillStep::Run { text, commands }
}

fn leading_white_of(v: &Vec<char>, from: usize, to: usize) -> (r: String)
    requires
        from <= to <= v.len(),
    ensures
        r@ == leading_white(v@.subrange(from as int, to as int)),
{
    let mut r = String::new();
    let mut i: usize = from;
    let ghost all = leading_white(v@.subrange(from as int, to as int));
    assert(r@ + all =~= all);
    while i < to && is_white_char(v[i])
        invariant
            from <= i <= to <= v.len(),
            all == r@ + leading_white(v@.subrange(i as int, to as int)),
        decreases to - i,
    {
        let ghost t = v@.subrange(i as int, to as int);
        let ghost before = r@;
        assert(t.drop_first() =~= v@.subrange(i + 1, to as int));
        r.push(v[i]);
        assert(before + (seq![t[0]] + leading_white(t.drop_first())) =~= r@ + leading_white(
            t.drop_first(),
        ));
        i = i + 1;
    }
    assert(r@ + Seq::<char>::empty() =~= r@);
    r
}

/// Puts the outputs of the commands into the text.
pub fn finish_skill_content(content: &str, text: &str, outputs: &Vec<String>) -> (r: String)
    requires
        apart(regions_of(content@), 0, content@.len() as int),
        outputs@.len() == regions_of(content@).len(),
    ensures
        r@ == filled(
            text@,
            content@,
            regions_of(content@),
            strs(outputs@),
            outputs@.len() as int,
        ),
{
    let regions = extract_command_regions(content);
    let v = chars_of(content);
    let ghost all = regions_of(content@);
    let ghost outs = strs(outputs@);
    proof {
        lemma_blocks_ordered(content@, 0);
        lemma_inlines_ordered(content@, 0);
        lemma_interleaved_ordered(blocks_from(content@, 0), inlines_from(content@, 0));
    }
    let mut result = text.to_owned();
    let mut i: usize = regions.len();
    while i > 0
        invariant
            v@ == content@,
            all == regions_of(content@),
            all == region_views(regions@),
            outs == strs(outputs@),
            outputs@.len() == all.len(),
            apart(all, 0, content@.len() as int),
            forall|k: int| 0 <= k < all.len() ==> (#[trigger] all[k]).start <= all[k].end,
            i <= regions.len(),
            filled(text@, content@, all, outs, all.len() as int) == filled(
                result@,
                content@,
                all,
                outs,
                i as int,
            ),
        decreases i,
    {
        i = i - 1;
        assert(all[i as int] == regions@[i as int]@);
        assert(outs[i as int] == outputs@[i as int]@);
        let mark = placeholder_of(i);
        let with = if regions[i].is_block {
            outputs[i].clone()
        } else {
            proof {
                assert(all.subrange(0, all.len() as int) =~= all);
                lemma_apart_inside(all, 0, content@.len() as int, 0, i as int, all);
            }
            let mut w = leading_white_of(&v, regions[i].start, regions[i].end);
            w.push_str(trimmed(outputs[i].as_str()).as_str());
            w
        };
        result = replaced(result.as_str(), mark.as_str(), with.as_str());
    }
    result
}

/// Each of the commands that are apart ends within the text.
proof fn lemma_apart_inside(
    t: Seq<RegionView>,
    from: int,
    len: int,
    i: int,
    k: int,
    all: Seq<RegionView>,
)
    requires
        apart(t, from, len),
        0 <= i <= k < all.len(),
        t == all.subrange(i, all.len() as int),
        forall|j: int| 0 <= j < all.len() ==> (#[trigger] all[j]).start <= all[j].end,
    ensures
        all[k].end <= len,
    decreases k - i,
{
    assert(t[0] == all[i]);
    assert(t.drop_first() =~= all.subrange(i + 1, all.len() as int));
    if i == k {
        lemma_apart_bound(t.drop_first(), t[0].end, len, all, i + 1);
    } else {
        lemma_apart_inside(t.drop_first(), t[0].end, len, i + 1, k, all);
    }
}

// ── Outputs of commands ─────────────────────────────────────────────────────────────────────

/// What a command that ran in a sandbox gives: its output, or a note about its failure.
pub fn sandboxed_output(success: bool, stdout: &str, stderr: &str, exit_code: i32) -> (r: String)
    ensures
        r@ == if success {
            trim(stdout@)
        } else if trim(stderr@).len() > 0 {
            "[error: "@ + trim(stderr@) + "]"@
        } else {
            "[error: exit code "@ + decimal_int(exit_code as int) + "]"@
        },
{
    if success {
        return trimmed(stdout);
    }
    let e = trimmed(stderr);
    if !e.as_str().is_empty() {
        let mut m = concat("[error: ", e.as_str());
        m.push_str("]");
        m
    } else {
        let mut m = concat("[error: exit code ", number_signed(exit_code).as_str());
        m.push_str("]");
        m
    }
}

/// What a command that ran without a sandbox gives: its output, or a note about its failure.
pub fn direct_output(success: bool, stdout: &str, stderr: &str, exit_code: Option<i32>) -> (r:
    String)
    ensures
        r@ == if success {
            trim(stdout@)
        } else if stderr@.len() > 0 {
            "[error: "@ + trim(stderr@) + "]"@
        } else {
            "[error: exit code "@ + decimal_int(
                match exit_code {
                    Some(c) => c as int,
                    None => -1,
                },
            ) + "]"@
        },
{
    if success {
        return trimmed(stdout);
    }
    if !stderr.is_empty() {
        let mut m = concat("[error: ", trimmed(stderr).as_str());
        m.push_str("]");
        m
    } else {
        let c: i32 = match exit_code {
            Some(c) => c,
            None => -1,
        };
        let mut m = concat("[error: exit code ", number_signed(c).as_str());
        m.push_str("]");
        m
    }
}

/// The note about a command that its time limit ended.
pub fn timeout_output(timeout_ms: u64) -> (r: String)
    ensures
        r@ == "[timeout after "@ + decimal((timeout_ms / 1000) as nat) + "s]"@,
{
    let mut m = concat("[timeout after ", number(timeout_ms / 1000).as_str());
    m.push_str("s]");
    m
}

/// The note about a command that could not be run.
pub fn failure_output(sandboxed: bool, error: &str) -> (r: String)
    ensures
        r@ == (if sandboxed {
            "[sandbox error: "@
        } else {
            "[error: "@
        }) + error@ + "]"@,
{
    let mut m = if sandboxed {
        "[sandbox error: ".to_owned()
    } else {
        "[error: ".to_owned()
    };
    m.push_str(error);
    m.push_str("]");
    m
}

// ── Laws ────────────────────────────────────────────────────────────────────────────────────

/// A skill from outside runs no command.
pub proof fn law_remote_skills_run_nothing(content: Seq<char>, ctx: PromptContext)
    requires
        ctx.source == SkillSource::Mcp,
    ensures
        commands_run(content, ctx).len() == 0,
{
}

/// Arguments, the session and the directory add no command and change none: every command that
/// is run is one that the body itself holds.
pub proof fn law_only_commands_of_the_body_run(content: Seq<char>, ctx: PromptContext, i: int)
    requires
        0 <= i < commands_run(content, ctx).len(),
    ensures
        i < regions_of(content).len(),
        commands_run(content, ctx)[i] == regions_of(content)[i].command,
{
}

/// Two activations of a skill run the same commands, unless one of them runs none.
pub proof fn law_activations_run_the_same_commands(
    content: Seq<char>,
    a: PromptContext,
    b: PromptContext,
)
    ensures
        commands_run(content, a).len() == 0 || commands_run(content, b).len() == 0 || commands_run(
            content,
            a,
        ) == commands_run(content, b),
{
}

// ── What filling in means ───────────────────────────────────────────────────────────────────

/// A part of a body: text, or a variable by its name.
pub enum BodyPart {
    Text(Seq<char>),
    Variable(Seq<char>),
}

/// How a variable is written.
pub open spec fn written(name: Seq<char>) -> Seq<char> {
    seq!['$', '{'] + name + seq!['}']
}

/// A body that is made of parts.
pub open spec fn body_of(parts: Seq<BodyPart>) -> Seq<char>
    decreases parts.len(),
{
    if parts.len() == 0 {
        Seq::empty()
    } else {
        (match parts[0] {
            BodyPart::Text(t) => t,
            BodyPart::Variable(n) => written(n),
        }) + body_of(parts.drop_first())
    }
}

/// Whether the text of parts holds no dollar sign, and the names of variables neither one nor a
/// closing brace.
pub open spec fn plain_parts(parts: Seq<BodyPart>) -> bool {
    forall|i: int|
        0 <= i < parts.len() ==> match #[trigger] parts[i] {
            BodyPart::Text(t) => !t.contains('$'),
            BodyPart::Variable(n) => !n.contains('$') && !n.contains('}'),
        }
}

/// What a variable stands for: the directory of the skill, the session, all arguments between
/// spaces, or the argument with its number; an unknown one for itself.
pub open spec fn meaning_of(
    name: Seq<char>,
    dir: Seq<char>,
    session: Seq<char>,
    args: Seq<Seq<char>>,
) -> Seq<char> {
    if name == "SKILL_DIR"@ || name == "CLAUDE_SKILL_DIR"@ {
        dir
    } else if name == "SESSION_ID"@ || name == "CLAUDE_SESSION_ID"@ {
        session
    } else if name == "ARGUMENTS"@ {
        join(args, " "@)
    } else if exists|k: int| 1 <= k <= args.len() && name == #[trigger] decimal(k as nat) {
        args[(choose|k: int| 1 <= k <= args.len() && name == #[trigger] decimal(k as nat)) - 1]
    } else {
        written(name)
    }
}

/// What a body of parts means: its text as it stands, and what each variable stands for in its
/// place.
pub open spec fn meaning_of_parts(
    parts: Seq<BodyPart>,
    dir: Seq<char>,
    session: Seq<char>,
    args: Seq<Seq<char>>,
) -> Seq<char>
    decreases parts.len(),
{
    if parts.len() == 0 {
        Seq::empty()
    } else {
        (match parts[0] {
            BodyPart::Text(t) => t,
            BodyPart::Variable(n) => meaning_of(n, dir, session, args),
        }) + meaning_of_parts(parts.drop_first(), dir, session, args)
    }
}

/// The parts with a variable replaced by text.
pub open spec fn filled_parts(parts: Seq<BodyPart>, name: Seq<char>, v: Seq<char>) -> Seq<BodyPart> {
    parts.map_values(
        |p: BodyPart|
            if p == BodyPart::Variable(name) {
                BodyPart::Text(v)
            } else {
                p
            },
    )
}

proof fn lemma_other_variable(name: Seq<char>, other: Seq<char>, rest: Seq<char>, q: int)
    requires
        !name.contains('$') && !name.contains('}'),
        !other.contains('$') && !other.contains('}'),
        name != other,
        0 <= q < written(other).len(),
    ensures
        !occurs_at(written(other) + rest, written(name), q),
{
    let s = written(other) + rest;
    let p = written(name);
    if occurs_at(s, p, q) {
        let sub = s.subrange(q, q + p.len());
        assert(sub[0] == s[q] && p[0] == '$');
        if 2 <= q < other.len() + 2 {
            assert(s[q] == other[q - 2]);
            assert(other.contains('$'));
        }
        assert(q == 0);
        let n = name.len() as int;
        let m = other.len() as int;
        assert(forall|k: int| 0 <= k < n ==> #[trigger] name[k] == p[k + 2]);
        assert(forall|k: int| 0 <= k < m ==> #[trigger] other[k] == s[k + 2]);
        assert(forall|k: int| 0 <= k < p.len() ==> #[trigger] p[k] == s[k]) by {
            assert(forall|k: int| 0 <= k < p.len() ==> #[trigger] sub[k] == s[k]);
        }
        if n < m {
            assert(p[n + 2] == '}');
            assert(other[n] == '}');
        } else if m < n {
            assert(s[m + 2] == '}');
            assert(name[m] == '}');
        } else {
            assert(name =~= other);
        }
    }
}

/// Replacing a variable fills it in wherever it stands.
pub proof fn lemma_fill_parts(parts: Seq<BodyPart>, name: Seq<char>, v: Seq<char>)
    requires
        plain_parts(parts),
        !name.contains('$') && !name.contains('}'),
    ensures
        replace(body_of(parts), written(name), v) == body_of(filled_parts(parts, name, v)),
    decreases parts.len(),
{
    let p = written(name);
    let r = filled_parts(parts, name, v);
    if parts.len() == 0 {
        lemma_find_from(body_of(parts), p, 0);
    } else {
        let tail = parts.drop_first();
        let rest = body_of(tail);
        assert forall|i: int| 0 <= i < tail.len() implies match #[trigger] tail[i] {
            BodyPart::Text(t) => !t.contains('$'),
            BodyPart::Variable(n) => !n.contains('$') && !n.contains('}'),
        } by {
            assert(tail[i] == parts[i + 1]);
        }
        lemma_fill_parts(tail, name, v);
        assert(r.drop_first() =~= filled_parts(tail, name, v));
        match parts[0] {
            BodyPart::Text(t) => {
                assert forall|q: int| 0 <= q < t.len() implies !#[trigger] occurs_at(
                    t + rest,
                    p,
                    q,
                ) by {
                    if occurs_at(t + rest, p, q) {
                        assert((t + rest).subrange(q, q + p.len())[0] == t[q]);
                        assert(p[0] == '$');
                        assert(t.contains(t[q]));
                    }
                }
                lemma_replace_behind(t, rest, p, v);
            },
            BodyPart::Variable(n) => {
                if n == name {
                    lemma_replace_here(p, rest, v);
                } else {
                    assert forall|q: int| 0 <= q < written(n).len() implies !#[trigger] occurs_at(
                        written(n) + rest,
                        p,
                        q,
                    ) by {
                        lemma_other_variable(name, n, rest, q);
                    }
                    lemma_replace_behind(written(n), rest, p, v);
                }
            },
        }
    }
}

/// Filling in a text without dollar signs brings none.
pub proof fn lemma_filled_plain(parts: Seq<BodyPart>, name: Seq<char>, v: Seq<char>)
    requires
        plain_parts(parts),
        !v.contains('$'),
    ensures
        plain_parts(filled_parts(parts, name, v)),
{
    let r = filled_parts(parts, name, v);
    assert forall|i: int| 0 <= i < r.len() implies match #[trigger] r[i] {
        BodyPart::Text(t) => !t.contains('$'),
        BodyPart::Variable(n) => !n.contains('$') && !n.contains('}'),
    } by {
        assert(parts[i] == parts[i]);
    }
}

/// The parts with the first `n` arguments filled in.
spec fn positional_parts(parts: Seq<BodyPart>, args: Seq<Seq<char>>, n: int) -> Seq<BodyPart>
    decreases n,
{
    if n <= 0 {
        parts
    } else {
        filled_parts(positional_parts(parts, args, n - 1), decimal(n as nat), args[n - 1])
    }
}

proof fn lemma_decimal_digits(n: nat)
    ensures
        decimal(n).len() > 0,
        forall|i: int| 0 <= i < decimal(n).len() ==> '0' <= #[trigger] decimal(n)[i] <= '9',
    decreases n,
{
    if n >= 10 {
        lemma_decimal_digits(n / 10);
    }
}

proof fn lemma_decimal_distinct(a: nat, b: nat)
    requires
        decimal(a) == decimal(b),
    ensures
        a == b,
    decreases a,
{
    lemma_decimal_digits(a / 10);
    lemma_decimal_digits(b / 10);
    if a >= 10 && b >= 10 {
        assert(decimal(a).drop_last() =~= decimal(a / 10));
        assert(decimal(b).drop_last() =~= decimal(b / 10));
        assert(decimal(a).last() == digit(a % 10));
        assert(decimal(b).last() == digit(b % 10));
        assert(a % 10 == b % 10);
        lemma_decimal_distinct(a / 10, b / 10);
    } else if a < 10 && b < 10 {
        assert(decimal(a)[0] == digit(a) && decimal(b)[0] == digit(b));
    } else if a < 10 {
        assert(decimal(b).len() == decimal(b / 10).len() + 1);
    } else {
        assert(decimal(a).len() == decimal(a / 10).len() + 1);
    }
}

proof fn lemma_positional_parts(parts: Seq<BodyPart>, args: Seq<Seq<char>>, n: int)
    requires
        plain_parts(parts),
        0 <= n <= args.len(),
        forall|i: int| 0 <= i < args.len() ==> !(#[trigger] args[i]).contains('$'),
    ensures
        positional(body_of(parts), args, n) == body_of(positional_parts(parts, args, n)),
        plain_parts(positional_parts(parts, args, n)),
        positional_parts(parts, args, n).len() == parts.len(),
    decreases n,
{
    if n > 0 {
        lemma_positional_parts(parts, args, n - 1);
        let before = positional_parts(parts, args, n - 1);
        lemma_plain_number(n as nat);
        lemma_fill_parts(before, decimal(n as nat), args[n - 1]);
        lemma_filled_plain(before, decimal(n as nat), args[n - 1]);
        reveal_strlit("${");
        reveal_strlit("}");
        assert("${"@ + decimal(n as nat) + "}"@ =~= written(decimal(n as nat)));
    }
}

proof fn lemma_plain_number(n: nat)
    ensures
        !decimal(n).contains('$') && !decimal(n).contains('}'),
{
    lemma_decimal_digits(n);
}

proof fn lemma_positional_hit(
    parts: Seq<BodyPart>,
    args: Seq<Seq<char>>,
    n: int,
    i: int,
    k: int,
)
    requires
        0 <= i < parts.len(),
        0 <= n <= args.len(),
        1 <= k <= args.len(),
        parts[i] == BodyPart::Variable(decimal(k as nat)),
    ensures
        positional_parts(parts, args, n).len() == parts.len(),
        positional_parts(parts, args, n)[i] == if k <= n {
            BodyPart::Text(args[k - 1])
        } else {
            parts[i]
        },
    decreases n,
{
    if n > 0 {
        lemma_positional_hit(parts, args, n - 1, i, k);
        if decimal(k as nat) == decimal(n as nat) {
            lemma_decimal_distinct(k as nat, n as nat);
        }
    }
}

proof fn lemma_positional_miss(parts: Seq<BodyPart>, args: Seq<Seq<char>>, n: int, i: int)
    requires
        0 <= i < parts.len(),
        0 <= n <= args.len(),
        forall|k: int|
            1 <= k <= args.len() ==> parts[i] != BodyPart::Variable(#[trigger] decimal(k as nat)),
    ensures
        positional_parts(parts, args, n).len() == parts.len(),
        positional_parts(parts, args, n)[i] == parts[i],
    decreases n,
{
    if n > 0 {
        lemma_positional_miss(parts, args, n - 1, i);
        assert(parts[i] != BodyPart::Variable(decimal(n as nat)));
    }
}

proof fn lemma_same_text(
    filled: Seq<BodyPart>,
    parts: Seq<BodyPart>,
    dir: Seq<char>,
    session: Seq<char>,
    args: Seq<Seq<char>>,
)
    requires
        filled.len() == parts.len(),
        forall|i: int|
            0 <= i < parts.len() ==> (match #[trigger] filled[i] {
                BodyPart::Text(t) => t,
                BodyPart::Variable(n) => written(n),
            }) == match parts[i] {
                BodyPart::Text(t) => t,
                BodyPart::Variable(n) => meaning_of(n, dir, session, args),
            },
    ensures
        body_of(filled) == meaning_of_parts(parts, dir, session, args),
    decreases parts.len(),
{
    if parts.len() > 0 {
        let f = filled.drop_first();
        let p = parts.drop_first();
        assert(filled[0] == filled[0]);
        assert forall|i: int| 0 <= i < p.len() implies (match #[trigger] f[i] {
            BodyPart::Text(t) => t,
            BodyPart::Variable(n) => written(n),
        }) == match p[i] {
            BodyPart::Text(t) => t,
            BodyPart::Variable(n) => meaning_of(n, dir, session, args),
        } by {
            assert(f[i] == filled[i + 1]);
            assert(p[i] == parts[i + 1]);
        }
        lemma_same_text(f, p, dir, session, args);
    }
}

proof fn lemma_joined_plain(args: Seq<Seq<char>>)
    requires
        forall|i: int| 0 <= i < args.len() ==> !(#[trigger] args[i]).contains('$'),
    ensures
        !join(args, " "@).contains('$'),
    decreases args.len(),
{
    reveal_strlit(" ");
    if args.len() == 1 {
        assert(!args[0].contains('$'));
    } else if args.len() > 1 {
        let init = args.drop_last();
        assert forall|i: int| 0 <= i < init.len() implies !(#[trigger] init[i]).contains('$') by {
            assert(init[i] == args[i]);
        }
        lemma_joined_plain(init);
        let a = join(init, " "@);
        let z = args.last();
        assert(!args[args.len() - 1].contains('$'));
        let all = a + " "@ + z;
        assert forall|i: int| 0 <= i < all.len() implies all[i] != '$' by {
            if i < a.len() {
                assert(a.contains(a[i]));
            } else if i > a.len() {
                assert(z.contains(z[i - a.len() - 1]));
            }
        }
    }
}

/// Filling in the variables of a body gives what the body means: every occurrence of a variable, and
/// nothing else, becomes what that variable stands for, however many of them there are and wherever
/// they stand.
pub proof fn law_variables_are_filled_in(
    parts: Seq<BodyPart>,
    dir: Seq<char>,
    session: Seq<char>,
    args: Seq<Seq<char>>,
)
    requires
        plain_parts(parts),
        !dir.contains('$'),
        !session.contains('$'),
        forall|i: int| 0 <= i < args.len() ==> !(#[trigger] args[i]).contains('$'),
    ensures
        substituted(body_of(parts), dir, session, args) == meaning_of_parts(
            parts,
            dir,
            session,
            args,
        ),
{
    reveal_strlit("${SKILL_DIR}");
    reveal_strlit("${CLAUDE_SKILL_DIR}");
    reveal_strlit("${SESSION_ID}");
    reveal_strlit("${CLAUDE_SESSION_ID}");
    reveal_strlit("${ARGUMENTS}");
    reveal_strlit("SKILL_DIR");
    reveal_strlit("CLAUDE_SKILL_DIR");
    reveal_strlit("SESSION_ID");
    reveal_strlit("CLAUDE_SESSION_ID");
    reveal_strlit("ARGUMENTS");
    assert("${SKILL_DIR}"@ =~= written("SKILL_DIR"@));
    assert("${CLAUDE_SKILL_DIR}"@ =~= written("CLAUDE_SKILL_DIR"@));
    assert("${SESSION_ID}"@ =~= written("SESSION_ID"@));
    assert("${CLAUDE_SESSION_ID}"@ =~= written("CLAUDE_SESSION_ID"@));
    assert("${ARGUMENTS}"@ =~= written("ARGUMENTS"@));
    lemma_joined_plain(args);
    let all = join(args, " "@);
    let a = filled_parts(parts, "SKILL_DIR"@, dir);
    lemma_fill_parts(parts, "SKILL_DIR"@, dir);
    lemma_filled_plain(parts, "SKILL_DIR"@, dir);
    let b = filled_parts(a, "CLAUDE_SKILL_DIR"@, dir);
    lemma_fill_parts(a, "CLAUDE_SKILL_DIR"@, dir);
    lemma_filled_plain(a, "CLAUDE_SKILL_DIR"@, dir);
    let c = filled_parts(b, "SESSION_ID"@, session);
    lemma_fill_parts(b, "SESSION_ID"@, session);
    lemma_filled_plain(b, "SESSION_ID"@, session);
    let d = filled_parts(c, "CLAUDE_SESSION_ID"@, session);
    lemma_fill_parts(c, "CLAUDE_SESSION_ID"@, session);
    lemma_filled_plain(c, "CLAUDE_SESSION_ID"@, session);
    let e = filled_parts(d, "ARGUMENTS"@, all);
    lemma_fill_parts(d, "ARGUMENTS"@, all);
    lemma_filled_plain(d, "ARGUMENTS"@, all);
    let n = args.len() as int;
    lemma_positional_parts(e, args, n);
    let f = positional_parts(e, args, n);
    assert forall|i: int| 0 <= i < parts.len() implies (match #[trigger] f[i] {
        BodyPart::Text(t) => t,
        BodyPart::Variable(m) => written(m),
    }) == match parts[i] {
        BodyPart::Text(t) => t,
        BodyPart::Variable(m) => meaning_of(m, dir, session, args),
    } by {
        match e[i] {
            BodyPart::Text(t) => {
                lemma_positional_miss(e, args, n, i);
            },
            BodyPart::Variable(m) => {
                assert(parts[i] == e[i]);
                if exists|k: int| 1 <= k <= args.len() && m == #[trigger] decimal(k as nat) {
                    let k = choose|k: int|
                        1 <= k <= args.len() && m == #[trigger] decimal(k as nat);
                    lemma_positional_hit(e, args, n, i, k);
                } else {
                    lemma_positional_miss(e, args, n, i);
                }
            },
        }
    }
    lemma_same_text(f, parts, dir, session, args);
}

proof fn lemma_no_such_variable(parts: Seq<BodyPart>, name: Seq<char>, v: Seq<char>)
    requires
        plain_parts(parts),
        !name.contains('$') && !name.contains('}'),
        forall|i: int| 0 <= i < parts.len() ==> #[trigger] parts[i] != BodyPart::Variable(name),
    ensures
        replace(body_of(parts), written(name), v) == body_of(parts),
{
    lemma_fill_parts(parts, name, v);
    assert(filled_parts(parts, name, v) =~= parts);
}

proof fn lemma_only_numbers(
    parts: Seq<BodyPart>,
    dir: Seq<char>,
    session: Seq<char>,
    args: Seq<Seq<char>>,
)
    requires
        plain_parts(parts),
        forall|i: int|
            0 <= i < parts.len() ==> match #[trigger] parts[i] {
                BodyPart::Text(t) => true,
                BodyPart::Variable(n) => n.len() > 0 && '0' <= n[0] <= '9',
            },
    ensures
        substituted(body_of(parts), dir, session, args) == positional(
            body_of(parts),
            args,
            args.len() as int,
        ),
{
    reveal_strlit("${SKILL_DIR}");
    reveal_strlit("${CLAUDE_SKILL_DIR}");
    reveal_strlit("${SESSION_ID}");
    reveal_strlit("${CLAUDE_SESSION_ID}");
    reveal_strlit("${ARGUMENTS}");
    reveal_strlit("SKILL_DIR");
    reveal_strlit("CLAUDE_SKILL_DIR");
    reveal_strlit("SESSION_ID");
    reveal_strlit("CLAUDE_SESSION_ID");
    reveal_strlit("ARGUMENTS");
    assert("${SKILL_DIR}"@ =~= written("SKILL_DIR"@));
    assert("${CLAUDE_SKILL_DIR}"@ =~= written("CLAUDE_SKILL_DIR"@));
    assert("${SESSION_ID}"@ =~= written("SESSION_ID"@));
    assert("${CLAUDE_SESSION_ID}"@ =~= written("CLAUDE_SESSION_ID"@));
    assert("${ARGUMENTS}"@ =~= written("ARGUMENTS"@));
    lemma_no_such_variable(parts, "SKILL_DIR"@, dir);
    lemma_no_such_variable(parts, "CLAUDE_SKILL_DIR"@, dir);
    lemma_no_such_variable(parts, "SESSION_ID"@, session);
    lemma_no_such_variable(parts, "CLAUDE_SESSION_ID"@, session);
    lemma_no_such_variable(parts, "ARGUMENTS"@, join(args, " "@));
}

/// The variable with a number stands for the argument with that number, counted from one, whichever
/// of the arguments it is.
pub proof fn law_each_argument_fills_its_own_place(
    a: Seq<char>,
    k: int,
    b: Seq<char>,
    dir: Seq<char>,
    session: Seq<char>,
    args: Seq<Seq<char>>,
)
    requires
        !a.contains('$'),
        !b.contains('$'),
        1 <= k <= args.len(),
        forall|i: int| 0 <= i < args.len() ==> !(#[trigger] args[i]).contains('$'),
    ensures
        substituted(
            a + (seq!['$', '{'] + decimal(k as nat) + seq!['}']) + b,
            dir,
            session,
            args,
        ) == a + args[k - 1] + b,
{
    let name = decimal(k as nat);
    let parts = seq![BodyPart::Text(a), BodyPart::Variable(name), BodyPart::Text(b)];
    lemma_decimal_digits(k as nat);
    lemma_plain_number(k as nat);
    lemma_three_parts(parts);
    assert(a + (written(name) + b) =~= a + written(name) + b);
    lemma_only_numbers(parts, dir, session, args);
    let n = args.len() as int;
    lemma_positional_parts(parts, args, n);
    lemma_positional_hit(parts, args, n, 1, k);
    lemma_positional_miss(parts, args, n, 0);
    lemma_positional_miss(parts, args, n, 2);
    lemma_three_parts(positional_parts(parts, args, n));
    assert(a + (args[k - 1] + b) =~= a + args[k - 1] + b);
}

proof fn lemma_three_parts(parts: Seq<BodyPart>)
    requires
        parts.len() == 3,
    ensures
        body_of(parts) == (match parts[0] {
            BodyPart::Text(t) => t,
            BodyPart::Variable(n) => written(n),
        }) + ((match parts[1] {
            BodyPart::Text(t) => t,
            BodyPart::Variable(n) => written(n),
        }) + (match parts[2] {
            BodyPart::Text(t) => t,
            BodyPart::Variable(n) => written(n),
        })),
{
    let p = parts.drop_first();
    let q = p.drop_first();
    let r = q.drop_first();
    assert(body_of(r) =~= Seq::<char>::empty());
    assert(q[0] == parts[2] && p[0] == parts[1]);
    let last = match parts[2] {
        BodyPart::Text(t) => t,
        BodyPart::Variable(n) => written(n),
    };
    assert(body_of(q) =~= last);
    let mid = match parts[1] {
        BodyPart::Text(t) => t,
        BodyPart::Variable(n) => written(n),
    };
    assert(body_of(p) == mid + body_of(q));
}

proof fn lemma_without_variables(
    t: Seq<char>,
    dir: Seq<char>,
    session: Seq<char>,
    args: Seq<Seq<char>>,
)
    requires
        !t.contains('$'),
    ensures
        substituted(t, dir, session, args) == t,
{
    let parts = seq![BodyPart::Text(t)];
    assert(parts.drop_first() =~= Seq::<BodyPart>::empty());
    assert(body_of(parts.drop_first()) =~= Seq::<char>::empty());
    assert(body_of(parts) =~= t);
    lemma_only_numbers(parts, dir, session, args);
    lemma_positional_without(parts, args, args.len() as int);
}

proof fn lemma_positional_without(parts: Seq<BodyPart>, args: Seq<Seq<char>>, n: int)
    requires
        plain_parts(parts),
        0 <= n <= args.len(),
        forall|i: int| 0 <= i < parts.len() ==> (#[trigger] parts[i]) is Text,
    ensures
        positional(body_of(parts), args, n) == body_of(parts),
    decreases n,
{
    if n > 0 {
        lemma_positional_without(parts, args, n - 1);
        lemma_plain_number(n as nat);
        reveal_strlit("${");
        reveal_strlit("}");
        assert("${"@ + decimal(n as nat) + "}"@ =~= written(decimal(n as nat)));
        lemma_no_such_variable(parts, decimal(n as nat), args[n - 1]);
    }
}

// ── What putting in the outputs means ───────────────────────────────────────────────────────

/// A text at and behind `from` with the output of each command in the place of the command. That of
/// a block stands there as it is; that of an inline command without surrounding white space, behind
/// the white space that the command had before it.
pub open spec fn with_outputs(
    s: Seq<char>,
    r: Seq<RegionView>,
    outputs: Seq<Seq<char>>,
    from: int,
) -> Seq<char>
    decreases r.len(),
{
    if r.len() == 0 {
        s.subrange(from, s.len() as int)
    } else {
        s.subrange(from, r[0].start) + (if r[0].is_block {
            outputs[0]
        } else if s[r[0].start] == '!' {
            trim(outputs[0])
        } else {
            seq![s[r[0].start]] + trim(outputs[0])
        }) + with_outputs(s, r.drop_first(), outputs.drop_first(), r[0].end)
    }
}

/// A text at and behind `from` with the commands before `m` shielded and the others replaced.
spec fn half_filled(
    s: Seq<char>,
    r: Seq<RegionView>,
    outputs: Seq<Seq<char>>,
    base: int,
    from: int,
    m: int,
) -> Seq<char>
    decreases r.len() - base,
{
    if base >= r.len() {
        s.subrange(from, s.len() as int)
    } else {
        s.subrange(from, r[base].start) + (if base < m {
            placeholder(base as nat)
        } else {
            replacement(s, r[base], outputs[base])
        }) + half_filled(s, r, outputs, base + 1, r[base].end, m)
    }
}

proof fn lemma_shielded_is_half_filled(
    s: Seq<char>,
    r: Seq<RegionView>,
    outputs: Seq<Seq<char>>,
    base: int,
    from: int,
)
    requires
        0 <= base <= r.len(),
    ensures
        shielded(s, r.subrange(base, r.len() as int), from, base as nat) == half_filled(
            s,
            r,
            outputs,
            base,
            from,
            r.len() as int,
        ),
    decreases r.len() - base,
{
    let t = r.subrange(base, r.len() as int);
    if base < r.len() {
        assert(t[0] == r[base]);
        assert(t.drop_first() =~= r.subrange(base + 1, r.len() as int));
        lemma_shielded_is_half_filled(s, r, outputs, base + 1, r[base].end);
    }
}

proof fn lemma_trim_within(t: Seq<char>, c: char)
    requires
        !t.contains(c),
    ensures
        !trim(t).contains(c),
{
    lemma_trim_start_within(t, c);
    lemma_trim_end_within(trim_start(t), c);
}

proof fn lemma_trim_start_within(t: Seq<char>, c: char)
    requires
        !t.contains(c),
    ensures
        !trim_start(t).contains(c),
    decreases t.len(),
{
    if t.len() > 0 && is_white(t[0]) {
        assert forall|i: int| 0 <= i < t.drop_first().len() implies t.drop_first()[i] != c by {
            assert(t.contains(t[i + 1]));
        }
        lemma_trim_start_within(t.drop_first(), c);
    }
}

proof fn lemma_trim_end_within(t: Seq<char>, c: char)
    requires
        !t.contains(c),
    ensures
        !trim_end(t).contains(c),
    decreases t.len(),
{
    if t.len() > 0 && is_white(t.last()) {
        assert forall|i: int| 0 <= i < t.drop_last().len() implies t.drop_last()[i] != c by {
            assert(t.contains(t[i]));
        }
        lemma_trim_end_within(t.drop_last(), c);
    }
}

/// Whether a command begins and ends within a text, and one that is inline has at most one white
/// character before its mark.
spec fn in_form(s: Seq<char>, r: RegionView) -> bool {
    &&& 0 <= r.start < r.end <= s.len()
    &&& !r.is_block ==> s[r.start] == '!' || (is_white(s[r.start]) && r.start + 1 < r.end && s[
        r.start + 1] == '!')
}

proof fn lemma_replacement(s: Seq<char>, r: RegionView, output: Seq<char>)
    requires
        in_form(s, r),
        !s.contains('\u{1}'),
        !output.contains('\u{1}'),
    ensures
        replacement(s, r, output) == if r.is_block {
            output
        } else if s[r.start] == '!' {
            trim(output)
        } else {
            seq![s[r.start]] + trim(output)
        },
        !replacement(s, r, output).contains('\u{1}'),
{
    let t = s.subrange(r.start, r.end);
    lemma_trim_within(output, '\u{1}');
    assert(!is_white('!'));
    if !r.is_block {
        let u = trim(output);
        if s[r.start] == '!' {
            assert(leading_white(t) =~= Seq::<char>::empty());
            assert(Seq::<char>::empty() + u =~= u);
        } else {
            assert(t.drop_first()[0] == '!');
            assert(leading_white(t.drop_first()) =~= Seq::<char>::empty());
            assert(leading_white(t) =~= seq![s[r.start]]);
            let all = seq![s[r.start]] + u;
            assert forall|i: int| 0 <= i < all.len() implies all[i] != '\u{1}' by {
                if i == 0 {
                    assert(s.contains(s[r.start]));
                } else {
                    assert(u.contains(u[i - 1]));
                }
            }
        }
    }
}

proof fn lemma_placeholder_form(n: nat)
    ensures
        placeholder(n).len() == decimal(n).len() + 10,
        placeholder(n)[0] == '\u{1}',
        placeholder(n).last() == '\u{1}',
        forall|i: int| 1 <= i < placeholder(n).len() - 1 ==> #[trigger] placeholder(n)[i] != '\u{1}',
        placeholder(n).subrange(1, 9) == "CMD_OUT_"@,
        placeholder(n).subrange(9, placeholder(n).len() - 1) == decimal(n),
        !placeholder(n).contains('$'),
{
    reveal_strlit("\u{1}CMD_OUT_");
    reveal_strlit("\u{1}");
    reveal_strlit("CMD_OUT_");
    lemma_decimal_digits(n);
    let p = placeholder(n);
    let d = decimal(n);
    assert forall|i: int| 9 <= i < p.len() - 1 implies #[trigger] p[i] == d[i - 9] by {}
    assert(p.subrange(1, 9) =~= "CMD_OUT_"@);
    assert(p.subrange(9, p.len() - 1) =~= d);
    assert forall|i: int| 0 <= i < p.len() implies p[i] != '$' by {
        if 9 <= i < p.len() - 1 {
            assert(p[i] == d[i - 9]);
        }
    }
}

proof fn lemma_other_placeholder(i: nat, j: nat, u: Seq<char>, rest: Seq<char>, q: int)
    requires
        i != j,
        !u.contains('\u{1}'),
        !"CMD_OUT_"@.is_prefix_of(u),
        rest.len() > 0 ==> rest[0] == '\u{1}',
        0 <= q < placeholder(j).len(),
    ensures
        !occurs_at(placeholder(j) + (u + rest), placeholder(i), q),
{
    let a = placeholder(j);
    let p = placeholder(i);
    let s = a + (u + rest);
    lemma_placeholder_form(i);
    lemma_placeholder_form(j);
    reveal_strlit("CMD_OUT_");
    if occurs_at(s, p, q) {
        let sub = s.subrange(q, q + p.len());
        assert(forall|k: int| 0 <= k < p.len() ==> #[trigger] p[k] == s[q + k]) by {
            assert(forall|k: int| 0 <= k < p.len() ==> #[trigger] sub[k] == s[q + k]);
        }
        assert(p[0] == s[q]);
        if q == 0 {
            if p.len() < a.len() {
                assert(p[p.len() - 1] == a[p.len() - 1]);
            } else if a.len() < p.len() {
                assert(p[a.len() - 1] == a[a.len() - 1]);
            } else {
                assert(p =~= a);
                lemma_decimal_distinct(i, j);
            }
        } else if q < a.len() - 1 {
            assert(s[q] == a[q]);
        } else {
            let m = "CMD_OUT_"@;
            assert forall|k: int| 0 <= k < 8 implies #[trigger] m[k] == s[q + 1 + k] by {
                assert(p.subrange(1, 9)[k] == p[k + 1]);
            }
            if u.len() >= 8 {
                assert(m =~= u.take(8)) by {
                    assert forall|k: int| 0 <= k < 8 implies #[trigger] m[k] == u[k] by {
                        assert(s[q + 1 + k] == u[k]);
                    }
                }
            } else {
                let k = u.len() as int;
                assert(m[k] == s[q + 1 + k]);
                assert(s[q + 1 + k] == rest[0]);
            }
        }
    }
}

proof fn lemma_earlier_mark(
    s: Seq<char>,
    r: Seq<RegionView>,
    outputs: Seq<Seq<char>>,
    base: int,
    m: int,
    v: Seq<char>,
)
    requires
        0 <= base < m - 1,
        m <= r.len(),
        0 <= r[base].end <= r[base + 1].start <= s.len(),
        !s.contains('\u{1}'),
        !contains(s, "CMD_OUT_"@),
    ensures
        replace(
            placeholder(base as nat) + half_filled(s, r, outputs, base + 1, r[base].end, m),
            placeholder((m - 1) as nat),
            v,
        ) == placeholder(base as nat) + replace(
            half_filled(s, r, outputs, base + 1, r[base].end, m),
            placeholder((m - 1) as nat),
            v,
        ),
{
    let p = placeholder((m - 1) as nat);
    let w = placeholder(base as nat);
    let rest = half_filled(s, r, outputs, base + 1, r[base].end, m);
    let gap = s.subrange(r[base].end, r[base + 1].start);
    let mark = placeholder((base + 1) as nat);
    let more = half_filled(s, r, outputs, base + 2, r[base + 1].end, m);
    assert(rest == gap + mark + more);
    assert(gap + mark + more =~= gap + (mark + more));
    lemma_placeholder_form((base + 1) as nat);
    lemma_placeholder_form((m - 1) as nat);
    assert((mark + more)[0] == mark[0]);
    lemma_gap(s, r[base].end, r[base + 1].start);
    assert forall|q: int| 0 <= q < w.len() implies !#[trigger] occurs_at(w + rest, p, q) by {
        lemma_other_placeholder((m - 1) as nat, base as nat, gap, mark + more, q);
    }
    lemma_replace_behind(w, rest, p, v);
}

proof fn lemma_half_filled_step(
    s: Seq<char>,
    r: Seq<RegionView>,
    outputs: Seq<Seq<char>>,
    base: int,
    from: int,
    m: int,
)
    requires
        0 <= base <= r.len(),
        outputs.len() == r.len(),
        1 <= m <= r.len(),
        0 <= from,
        apart(r.subrange(base, r.len() as int), from, s.len() as int),
        forall|k: int| 0 <= k < r.len() ==> in_form(s, #[trigger] r[k]),
        !s.contains('\u{1}'),
        !contains(s, "CMD_OUT_"@),
        forall|k: int| 0 <= k < outputs.len() ==> !(#[trigger] outputs[k]).contains('\u{1}'),
    ensures
        replace(
            half_filled(s, r, outputs, base, from, m),
            placeholder((m - 1) as nat),
            replacement(s, r[m - 1], outputs[m - 1]),
        ) == half_filled(s, r, outputs, base, from, m - 1),
    decreases r.len() - base,
{
    let p = placeholder((m - 1) as nat);
    let v = replacement(s, r[m - 1], outputs[m - 1]);
    lemma_placeholder_form((m - 1) as nat);
    let t = r.subrange(base, r.len() as int);
    if base == r.len() {
        let u = s.subrange(from, s.len() as int);
        lemma_untouched(u, Seq::empty(), p, v, s, from, s.len() as int);
        assert(u + Seq::<char>::empty() =~= u);
        lemma_find_from(Seq::<char>::empty(), p, 0);
        assert(replace(Seq::<char>::empty(), p, v) =~= Seq::<char>::empty());
    } else {
        let x = r[base];
        assert(t[0] == x);
        assert(t.drop_first() =~= r.subrange(base + 1, r.len() as int));
        assert(in_form(s, x));
        lemma_half_filled_step(s, r, outputs, base + 1, x.end, m);
        let rest = half_filled(s, r, outputs, base + 1, x.end, m);
        let done = half_filled(s, r, outputs, base + 1, x.end, m - 1);
        let u = s.subrange(from, x.start);
        let w = if base < m {
            placeholder(base as nat)
        } else {
            replacement(s, x, outputs[base])
        };
        lemma_replacement(s, x, outputs[base]);
        lemma_replacement(s, r[m - 1], outputs[m - 1]);
        lemma_untouched(u, w + rest, p, v, s, from, x.start);
        assert(u + (w + rest) =~= u + w + rest);
        if base == m - 1 {
            lemma_replace_here(p, rest, v);
            assert(u + (v + done) =~= u + v + done);
        } else if base >= m {
            assert forall|q: int| 0 <= q < w.len() implies !#[trigger] occurs_at(
                w + rest,
                p,
                q,
            ) by {
                if occurs_at(w + rest, p, q) {
                    assert((w + rest).subrange(q, q + p.len())[0] == w[q]);
                    assert(w.contains(w[q]));
                }
            }
            lemma_replace_behind(w, rest, p, v);
            assert(u + (w + done) =~= u + w + done);
        } else {
            let y = r[base + 1];
            assert(in_form(s, y));
            assert(t.drop_first()[0] == y);
            assert(apart(t.drop_first(), x.end, s.len() as int));
            lemma_earlier_mark(s, r, outputs, base, m, v);
            assert(u + (w + done) =~= u + w + done);
        }
    }
}

proof fn lemma_gap(s: Seq<char>, a: int, b: int)
    requires
        0 <= a <= b <= s.len(),
        !s.contains('\u{1}'),
        !contains(s, "CMD_OUT_"@),
    ensures
        !s.subrange(a, b).contains('\u{1}'),
        !"CMD_OUT_"@.is_prefix_of(s.subrange(a, b)),
{
    let u = s.subrange(a, b);
    assert forall|i: int| 0 <= i < u.len() implies u[i] != '\u{1}' by {
        assert(s.contains(s[a + i]));
    }
    reveal_strlit("CMD_OUT_");
    if "CMD_OUT_"@.is_prefix_of(u) {
        assert(s.subrange(a, a + 8) =~= u.take(8));
        assert(occurs_at(s, "CMD_OUT_"@, a));
    }
}

proof fn lemma_untouched(
    u: Seq<char>,
    rest: Seq<char>,
    p: Seq<char>,
    v: Seq<char>,
    s: Seq<char>,
    a: int,
    b: int,
)
    requires
        0 <= a <= b <= s.len(),
        u == s.subrange(a, b),
        !s.contains('\u{1}'),
        p.len() > 0,
        p[0] == '\u{1}',
    ensures
        replace(u + rest, p, v) == u + replace(rest, p, v),
{
    assert forall|q: int| 0 <= q < u.len() implies !#[trigger] occurs_at(u + rest, p, q) by {
        if occurs_at(u + rest, p, q) {
            assert((u + rest).subrange(q, q + p.len())[0] == u[q]);
            assert(s.contains(s[a + q]));
        }
    }
    lemma_replace_behind(u, rest, p, v);
}

proof fn lemma_filled_steps(
    s: Seq<char>,
    r: Seq<RegionView>,
    outputs: Seq<Seq<char>>,
    m: int,
)
    requires
        outputs.len() == r.len(),
        0 <= m <= r.len(),
        apart(r, 0, s.len() as int),
        forall|k: int| 0 <= k < r.len() ==> in_form(s, #[trigger] r[k]),
        !s.contains('\u{1}'),
        !contains(s, "CMD_OUT_"@),
        forall|k: int| 0 <= k < outputs.len() ==> !(#[trigger] outputs[k]).contains('\u{1}'),
    ensures
        filled(half_filled(s, r, outputs, 0, 0, m), s, r, outputs, m) == half_filled(
            s,
            r,
            outputs,
            0,
            0,
            0,
        ),
    decreases m,
{
    if m > 0 {
        assert(r.subrange(0, r.len() as int) =~= r);
        lemma_half_filled_step(s, r, outputs, 0, 0, m);
        lemma_filled_steps(s, r, outputs, m - 1);
    }
}

proof fn lemma_all_filled(
    s: Seq<char>,
    r: Seq<RegionView>,
    outputs: Seq<Seq<char>>,
    base: int,
    from: int,
)
    requires
        0 <= base <= r.len(),
        outputs.len() == r.len(),
        forall|k: int| 0 <= k < r.len() ==> in_form(s, #[trigger] r[k]),
        !s.contains('\u{1}'),
        forall|k: int| 0 <= k < outputs.len() ==> !(#[trigger] outputs[k]).contains('\u{1}'),
    ensures
        half_filled(s, r, outputs, base, from, 0) == with_outputs(
            s,
            r.subrange(base, r.len() as int),
            outputs.subrange(base, r.len() as int),
            from,
        ),
    decreases r.len() - base,
{
    let t = r.subrange(base, r.len() as int);
    let o = outputs.subrange(base, r.len() as int);
    if base < r.len() {
        assert(t[0] == r[base] && o[0] == outputs[base]);
        assert(in_form(s, r[base]));
        assert(t.drop_first() =~= r.subrange(base + 1, r.len() as int));
        assert(o.drop_first() =~= outputs.subrange(base + 1, r.len() as int));
        lemma_replacement(s, r[base], outputs[base]);
        lemma_all_filled(s, r, outputs, base + 1, r[base].end);
    }
}

// ── Where commands stand ────────────────────────────────────────────────────────────────────

/// Whether a command stands in a text as it says. A block has a fence of three backquotes with an
/// exclamation mark before it and the next fence behind it. An inline command has an exclamation
/// mark and a backquote before it, at the beginning of the text or behind white space, and the next
/// backquote behind it, and is not empty. The command is what stands between, without surrounding
/// white space.
pub open spec fn stands_in(s: Seq<char>, r: RegionView) -> bool {
    if r.is_block {
        &&& 0 <= r.start && r.start + 7 <= r.end <= s.len()
        &&& s.subrange(r.start, r.start + 4) == seq!['`', '`', '`', '!']
        &&& s.subrange(r.end - 3, r.end) == seq!['`', '`', '`']
        &&& forall|k: int|
            r.start + 4 <= k < r.end - 3 ==> !#[trigger] occurs_at(s, "```"@, k)
        &&& r.command == trim(s.subrange(r.start + 4, r.end - 3))
    } else {
        let o = if s[r.start] == '!' {
            r.start + 2
        } else {
            r.start + 3
        };
        &&& 0 <= r.start && o < r.end - 1 && r.end <= s.len()
        &&& if s[r.start] == '!' {
            r.start == 0
        } else {
            is_white(s[r.start])
        }
        &&& s[o - 2] == '!' && s[o - 1] == '`' && s[r.end - 1] == '`'
        &&& forall|k: int| o <= k < r.end - 1 ==> s[k] != '`'
        &&& r.command == trim(s.subrange(o, r.end - 1))
    }
}

proof fn lemma_first_tick(s: Seq<char>, from: int)
    requires
        0 <= from,
    ensures
        match tick_from(s, from) {
            Some(j) => from <= j < s.len() && s[j] == '`' && forall|k: int|
                from <= k < j ==> s[k] != '`',
            None => forall|k: int| from <= k < s.len() ==> s[k] != '`',
        },
    decreases s.len() - from,
{
    if from < s.len() && s[from] != '`' {
        lemma_first_tick(s, from + 1);
    }
}

proof fn lemma_fences()
    ensures
        "```!"@ == seq!['`', '`', '`', '!'],
        "```"@ == seq!['`', '`', '`'],
{
    reveal_strlit("```!");
    reveal_strlit("```");
    assert("```!"@ =~= seq!['`', '`', '`', '!']);
    assert("```"@ =~= seq!['`', '`', '`']);
}

/// Whether commands of one form stand in a text as they say, one behind the other from `from` on.
spec fn stand_in_order(s: Seq<char>, r: Seq<RegionView>, from: int, block: bool) -> bool {
    &&& forall|i: int|
        0 <= i < r.len() ==> (#[trigger] r[i]).is_block == block && stands_in(s, r[i])
            && from <= r[i].start
    &&& forall|i: int, j: int|
        0 <= i < j < r.len() ==> (#[trigger] r[i]).end <= (#[trigger] r[j]).start
}

proof fn lemma_stand_cons(s: Seq<char>, x: RegionView, rest: Seq<RegionView>, from: int)
    requires
        from <= x.start,
        stands_in(s, x),
        stand_in_order(s, rest, x.end, x.is_block),
    ensures
        stand_in_order(s, seq![x] + rest, from, x.is_block),
{
    let all = seq![x] + rest;
    assert forall|i: int| 0 <= i < all.len() implies (#[trigger] all[i]).is_block == x.is_block
        && stands_in(s, all[i]) && from <= all[i].start by {
        if i > 0 {
            assert(all[i] == rest[i - 1]);
        }
    }
    assert forall|i: int, j: int| 0 <= i < j < all.len() implies (#[trigger] all[i]).end <= (
    #[trigger] all[j]).start by {
        assert(all[j] == rest[j - 1]);
        if i > 0 {
            assert(all[i] == rest[i - 1]);
        }
    }
}

proof fn lemma_blocks_stand(s: Seq<char>, from: int)
    requires
        0 <= from <= s.len(),
    ensures
        stand_in_order(s, blocks_from(s, from), from, true),
    decreases s.len() - from,
{
    lemma_fences();
    lemma_find_from(s, "```!"@, from);
    if let Some(r) = block_from(s, from) {
        lemma_find_from(s, "```"@, r.start + 4);
        assert(stands_in(s, r));
        lemma_blocks_stand(s, r.end);
        lemma_stand_cons(s, r, blocks_from(s, r.end), from);
    }
}

proof fn lemma_inline_stands(s: Seq<char>, i: int)
    requires
        inline_at(s, i) is Some,
    ensures
        stands_in(s, inline_at(s, i)->0),
        inline_at(s, i)->0.start == i,
        !inline_at(s, i)->0.is_block,
{
    lemma_first_tick(s, inline_open(s, i)->0);
    assert(!is_white('!'));
}

proof fn lemma_inlines_stand(s: Seq<char>, from: int)
    requires
        0 <= from,
    ensures
        stand_in_order(s, inlines_from(s, from), from, false),
    decreases s.len() - from,
{
    if from < s.len() {
        match inline_at(s, from) {
            Some(r) => {
                lemma_inline_stands(s, from);
                lemma_inlines_stand(s, r.end);
                lemma_stand_cons(s, r, inlines_from(s, r.end), from);
            },
            None => {
                lemma_inlines_stand(s, from + 1);
            },
        }
    }
}

proof fn lemma_cons_has(x: RegionView, rest: Seq<RegionView>)
    ensures
        forall|y: RegionView| #[trigger]
            (seq![x] + rest).contains(y) <==> y == x || rest.contains(y),
{
    let all = seq![x] + rest;
    assert forall|y: RegionView| #[trigger] all.contains(y) <==> y == x || rest.contains(y) by {
        if y == x {
            assert(all[0] == y);
        }
        if rest.contains(y) {
            assert(all[rest.index_of(y) + 1] == y);
        }
        if all.contains(y) && y != x {
            assert(rest[all.index_of(y) - 1] == y);
        }
    }
}

proof fn lemma_interleaved_has(a: Seq<RegionView>, b: Seq<RegionView>)
    requires
        forall|i: int, j: int| 0 <= i < j < a.len() ==> (#[trigger] a[i]).start <= (#[trigger] a[j]).start,
        forall|i: int, j: int| 0 <= i < j < b.len() ==> (#[trigger] b[i]).start <= (#[trigger] b[j]).start,
    ensures
        interleaved(a, b).len() == a.len() + b.len(),
        forall|y: RegionView| #[trigger]
            interleaved(a, b).contains(y) <==> a.contains(y) || b.contains(y),
        forall|i: int, j: int|
            0 <= i < j < interleaved(a, b).len() ==> (#[trigger] interleaved(a, b)[i]).start <= (
            #[trigger] interleaved(a, b)[j]).start,
    decreases a.len() + b.len(),
{
    if a.len() > 0 && b.len() > 0 {
        let first_a = a[0].start <= b[0].start;
        let x = if first_a {
            a[0]
        } else {
            b[0]
        };
        let at = if first_a {
            a.drop_first()
        } else {
            a
        };
        let bt = if first_a {
            b
        } else {
            b.drop_first()
        };
        lemma_interleaved_has(at, bt);
        let rest = interleaved(at, bt);
        lemma_cons_has(x, rest);
        if first_a {
            lemma_cons_has(x, at);
            assert(seq![x] + at =~= a);
        } else {
            lemma_cons_has(x, bt);
            assert(seq![x] + bt =~= b);
        }
        let all = seq![x] + rest;
        assert forall|i: int, j: int| 0 <= i < j < all.len() implies (#[trigger] all[i]).start <= (
        #[trigger] all[j]).start by {
            assert(all[j] == rest[j - 1]);
            if i > 0 {
                assert(all[i] == rest[i - 1]);
            } else {
                assert(rest.contains(rest[j - 1]));
                let y = rest[j - 1];
                if at.contains(y) {
                    let k = at.index_of(y);
                    if first_a {
                        assert(a[k + 1] == y);
                    } else {
                        assert(a[k] == y);
                    }
                } else {
                    let k = bt.index_of(y);
                    if first_a {
                        assert(b[k] == y);
                    } else {
                        assert(b[k + 1] == y);
                    }
                }
            }
        }
    }
}

/// The commands that are found in a text stand in it as they say, in order of where they begin, and
/// commands of one form do not overlap.
pub proof fn law_found_commands_stand_in_the_text(s: Seq<char>, i: int, j: int)
    requires
        0 <= i < regions_of(s).len(),
        0 <= j < regions_of(s).len(),
    ensures
        stands_in(s, regions_of(s)[i]),
        i < j ==> regions_of(s)[i].start <= regions_of(s)[j].start,
        regions_of(s)[i].is_block == regions_of(s)[j].is_block && regions_of(s)[i].start
            < regions_of(s)[j].start ==> regions_of(s)[i].end <= regions_of(s)[j].start,
{
    let a = blocks_from(s, 0);
    let b = inlines_from(s, 0);
    lemma_blocks_stand(s, 0);
    lemma_inlines_stand(s, 0);
    assert forall|k: int, l: int| 0 <= k < l < a.len() implies (#[trigger] a[k]).start <= (
    #[trigger] a[l]).start by {
        assert(stands_in(s, a[k]));
        assert(a[k].end <= a[l].start);
    }
    assert forall|k: int, l: int| 0 <= k < l < b.len() implies (#[trigger] b[k]).start <= (
    #[trigger] b[l]).start by {
        assert(stands_in(s, b[k]));
        assert(b[k].end <= b[l].start);
    }
    lemma_interleaved_has(a, b);
    let r = regions_of(s);
    assert(r.contains(r[i]) && r.contains(r[j]));
    if a.contains(r[i]) {
        let k = a.index_of(r[i]);
        assert(a[k] == r[i]);
    } else {
        let k = b.index_of(r[i]);
        assert(b[k] == r[i]);
    }
    if a.contains(r[j]) {
        let k = a.index_of(r[j]);
        assert(a[k] == r[j]);
    } else {
        let k = b.index_of(r[j]);
        assert(b[k] == r[j]);
    }
    if r[i].is_block == r[j].is_block && r[i].start < r[j].start {
        if r[i].is_block {
            let k = a.index_of(r[i]);
            let l = a.index_of(r[j]);
            if l < k {
                assert(a[l].start <= a[k].start);
            }
            assert(a[k].end <= a[l].start);
        } else {
            let k = b.index_of(r[i]);
            let l = b.index_of(r[j]);
            if l < k {
                assert(b[l].start <= b[k].start);
            }
            assert(b[k].end <= b[l].start);
        }
    }
}

proof fn lemma_block_is_found(s: Seq<char>, from: int, q: int, z: int) -> (i: int)
    requires
        0 <= from <= q,
        occurs_at(s, "```!"@, q),
        q + 4 <= z,
        occurs_at(s, "```"@, z),
    ensures
        0 <= i < blocks_from(s, from).len(),
        blocks_from(s, from)[i].is_block,
        blocks_from(s, from)[i].start <= q < blocks_from(s, from)[i].end,
    decreases s.len() - from,
{
    lemma_fences();
    lemma_find_from(s, "```!"@, from);
    let r = block_from(s, from)->0;
    lemma_find_from(s, "```"@, find_from(s, "```!"@, from)->0 + 4);
    if q < r.end {
        assert(blocks_from(s, from)[0] == r);
        0
    } else {
        let i = lemma_block_is_found(s, r.end, q, z);
        assert(blocks_from(s, from)[i + 1] == blocks_from(s, r.end)[i]);
        i + 1
    }
}

proof fn lemma_inline_is_found(s: Seq<char>, from: int, q: int) -> (i: int)
    requires
        0 <= from <= q < s.len(),
        inline_at(s, q) is Some,
    ensures
        0 <= i < inlines_from(s, from).len(),
        !inlines_from(s, from)[i].is_block,
        inlines_from(s, from)[i].start <= q < inlines_from(s, from)[i].end,
    decreases s.len() - from,
{
    match inline_at(s, from) {
        Some(r) => {
            lemma_inline_stands(s, from);
            if q < r.end {
                assert(inlines_from(s, from)[0] == r);
                0
            } else {
                let i = lemma_inline_is_found(s, r.end, q);
                assert(inlines_from(s, from)[i + 1] == inlines_from(s, r.end)[i]);
                i + 1
            }
        },
        None => lemma_inline_is_found(s, from + 1, q),
    }
}

/// Every command of a text is found. An opening fence at `q` with a fence behind it, at `z`, begins a
/// block or stands in one; an inline command at `q`, whose text begins at `o` and has a backquote
/// behind it, at `z`, is one that is found or begins within one.
pub proof fn law_every_command_is_found(s: Seq<char>, q: int, o: int, z: int)
    requires
        0 <= q < s.len(),
    ensures
        occurs_at(s, seq!['`', '`', '`', '!'], q) && q + 4 <= z && occurs_at(
            s,
            seq!['`', '`', '`'],
            z,
        ) ==> exists|i: int|
            0 <= i < regions_of(s).len() && (#[trigger] regions_of(s)[i]).is_block
                && regions_of(s)[i].start <= q < regions_of(s)[i].end,
        ((q == 0 && o == 2) || (is_white(s[q]) && o == q + 3)) && o < z < s.len() && s[o - 2] == '!'
            && s[o - 1] == '`' && s[o] != '`' && s[z] == '`' ==> exists|i: int|
            0 <= i < regions_of(s).len() && !(#[trigger] regions_of(s)[i]).is_block
                && regions_of(s)[i].start <= q < regions_of(s)[i].end,
{
    let a = blocks_from(s, 0);
    let b = inlines_from(s, 0);
    let r = regions_of(s);
    lemma_fences();
    lemma_blocks_stand(s, 0);
    lemma_inlines_stand(s, 0);
    assert forall|k: int, l: int| 0 <= k < l < a.len() implies (#[trigger] a[k]).start <= (
    #[trigger] a[l]).start by {
        assert(stands_in(s, a[k]));
        assert(a[k].end <= a[l].start);
    }
    assert forall|k: int, l: int| 0 <= k < l < b.len() implies (#[trigger] b[k]).start <= (
    #[trigger] b[l]).start by {
        assert(stands_in(s, b[k]));
        assert(b[k].end <= b[l].start);
    }
    lemma_interleaved_has(a, b);
    if occurs_at(s, "```!"@, q) && q + 4 <= z && occurs_at(s, "```"@, z) {
        let i = lemma_block_is_found(s, 0, q, z);
        assert(a.contains(a[i]));
        assert(r.contains(a[i]));
        let k = r.index_of(a[i]);
        assert(r[k] == a[i]);
    }
    if ((q == 0 && o == 2) || (is_white(s[q]) && o == q + 3)) && o < z < s.len() && s[o - 2] == '!'
        && s[o - 1] == '`' && s[o] != '`' && s[z] == '`' {
        assert(!is_white('!'));
        assert(inline_open(s, q) == Some(o));
        lemma_first_tick(s, o);
        let i = lemma_inline_is_found(s, 0, q);
        assert(b.contains(b[i]));
        assert(r.contains(b[i]));
        let k = r.index_of(b[i]);
        assert(r[k] == b[i]);
    }
}

proof fn lemma_shielded_plain(s: Seq<char>, r: Seq<RegionView>, from: int, n: nat)
    requires
        !s.contains('$'),
        0 <= from,
        apart(r, from, s.len() as int),
        forall|k: int| 0 <= k < r.len() ==> in_form(s, #[trigger] r[k]),
        from <= s.len(),
    ensures
        !shielded(s, r, from, n).contains('$'),
    decreases r.len(),
{
    if r.len() == 0 {
        lemma_part_plain(s, from, s.len() as int);
    } else {
        let t = r.drop_first();
        assert forall|k: int| 0 <= k < t.len() implies in_form(s, #[trigger] t[k]) by {
            assert(t[k] == r[k + 1]);
        }
        assert(in_form(s, r[0]));
        lemma_shielded_plain(s, t, r[0].end, n + 1);
        lemma_part_plain(s, from, r[0].start);
        lemma_placeholder_form(n);
        let a = s.subrange(from, r[0].start);
        let p = placeholder(n);
        let z = shielded(s, t, r[0].end, n + 1);
        let all = a + p + z;
        assert forall|i: int| 0 <= i < all.len() implies all[i] != '$' by {
            if i < a.len() {
                assert(a.contains(a[i]));
            } else if i < a.len() + p.len() {
                assert(p.contains(p[i - a.len()]));
            } else {
                assert(z.contains(z[i - a.len() - p.len()]));
            }
        }
    }
}

proof fn lemma_part_plain(s: Seq<char>, a: int, b: int)
    requires
        0 <= a <= b <= s.len(),
        !s.contains('$'),
    ensures
        !s.subrange(a, b).contains('$'),
{
    let u = s.subrange(a, b);
    assert forall|i: int| 0 <= i < u.len() implies u[i] != '$' by {
        assert(s.contains(s[a + i]));
    }
}

/// The processed body of a skill without variables is the body with the output of each command in the
/// place of that command, and all the rest as it was.
pub proof fn law_outputs_stand_where_commands_stood(
    s: Seq<char>,
    ctx: PromptContext,
    outputs: Seq<Seq<char>>,
)
    requires
        apart(regions_of(s), 0, s.len() as int),
        outputs.len() == regions_of(s).len(),
        !s.contains('$'),
        !s.contains('\u{1}'),
        !contains(s, "CMD_OUT_"@),
        forall|k: int| 0 <= k < outputs.len() ==> !(#[trigger] outputs[k]).contains('\u{1}'),
    ensures
        filled(shielded_body(s, ctx), s, regions_of(s), outputs, outputs.len() as int)
            == with_outputs(s, regions_of(s), outputs, 0),
{
    let r = regions_of(s);
    let n = r.len() as int;
    assert forall|k: int| 0 <= k < r.len() implies in_form(s, #[trigger] r[k]) by {
        law_found_commands_stand_in_the_text(s, k, k);
    }
    assert(r.subrange(0, n) =~= r);
    assert(outputs.subrange(0, n) =~= outputs);
    lemma_shielded_plain(s, r, 0, 0);
    lemma_without_variables(
        shielded(s, r, 0, 0),
        ctx.skill_dir@,
        ctx.session_id@,
        strs(ctx.arguments@),
    );
    lemma_shielded_is_half_filled(s, r, outputs, 0, 0);
    lemma_filled_steps(s, r, outputs, n);
    lemma_all_filled(s, r, outputs, 0, 0);
}

/// A text is marked wherever a command begins in it: with an opening fence, and with an inline command
/// that is closed, at its beginning or behind white space. A text without exclamation marks is not
/// marked, and has no commands.
pub proof fn law_marks_are_noticed(a: Seq<char>, b: Seq<char>, c: Seq<char>, w: char)
    requires
        is_white(w),
    ensures
        marked(a + seq!['`', '`', '`', '!'] + b),
        marked(seq!['!', '`'] + b + seq!['`'] + c),
        marked(a + seq![w, '!', '`'] + b + seq!['`'] + c),
        !a.contains('!') ==> !marked(a) && regions_of(a).len() == 0,
        regions_of(a).len() > 0 ==> marked(a),
{
    lemma_fences();
    let s = a + "```!"@ + b;
    let n = a.len() as int;
    assert(s.subrange(n, n + 4) =~= "```!"@);
    assert(occurs_at(s, "```!"@, n));
    let t = seq!['!', '`'] + b + seq!['`'] + c;
    assert(inline_open(t, 0) == Some(2int));
    lemma_first_tick(t, 2);
    assert(t[2 + b.len() as int] == '`');
    assert(inline_mark(t, 0));
    let u = a + seq![w, '!', '`'] + b + seq!['`'] + c;
    assert(u[n] == w && u[n + 1] == '!' && u[n + 2] == '`');
    if n == 0 {
        assert(!is_white('!'));
    }
    assert(inline_open(u, n) == Some(n + 3));
    lemma_first_tick(u, n + 3);
    assert(u[n + 3 + b.len()] == '`');
    assert(inline_mark(u, n));
    if !a.contains('!') {
        assert forall|i: int| !#[trigger] occurs_at(a, "```!"@, i) by {
            if occurs_at(a, "```!"@, i) {
                assert(a.subrange(i, i + 4)[3] == a[i + 3]);
                assert(a.contains(a[i + 3]));
            }
        }
        assert forall|i: int| !#[trigger] inline_mark(a, i) by {
            if inline_mark(a, i) {
                if a[i] == '!' {
                    assert(a.contains(a[i]));
                } else {
                    assert(a.contains(a[i + 1]));
                }
            }
        }
    }
    if regions_of(a).len() > 0 {
        law_found_commands_stand_in_the_text(a, 0, 0);
        let r = regions_of(a)[0];
        if r.is_block {
            assert(occurs_at(a, "```!"@, r.start));
        } else {
            let o = if a[r.start] == '!' {
                r.start + 2
            } else {
                r.start + 3
            };
            assert(!is_white('!'));
            assert(inline_open(a, r.start) == Some(o));
            lemma_first_tick(a, o);
            assert(inline_mark(a, r.start));
        }
    }
}

} // verus!
