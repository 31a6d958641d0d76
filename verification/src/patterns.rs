//! Shell-style patterns, tool matchers and command-line words.

use vstd::prelude::*;
use crate::text::{chars_of, opt_str, same, split, split_on, starts_with, strs, trim, trimmed};

verus! {

/// The message with which `glob` refuses a pattern; nothing for a pattern that it takes.
pub uninterp spec fn glob_error(pattern: Seq<char>) -> Option<Seq<char>>;

/// Whether `glob` takes the pattern and finds that the text matches it, on a platform whose only
/// path separator is `/`.
pub uninterp spec fn glob_matches(pattern: Seq<char>, text: Seq<char>) -> bool;

/// Whether a pattern is free of path separators and of the characters that have a meaning of their
/// own.
pub open spec fn is_literal(pattern: Seq<char>) -> bool {
    !pattern.contains('*') && !pattern.contains('?') && !pattern.contains('[')
        && !pattern.contains('/') && !pattern.contains('\\')
}

/// `glob::Pattern::new`, by the message of its error. A pattern without separators and
/// special characters is taken.
#[verifier::external_body]
pub(crate) fn pattern_error(pattern: &str) -> (r: Option<String>)
    ensures
        opt_str(r) == glob_error(pattern@),
        is_literal(pattern@) ==> r is None,
{
    glob::Pattern::new(pattern).err().map(|e| e.to_string())
}

/// `glob::Pattern::matches` on the compiled pattern, and `false` where it does not compile. A
/// pattern without separators and special characters matches itself alone; a single star matches
/// everything.
#[verifier::external_body]
pub(crate) fn pattern_hits(pattern: &str, text: &str) -> (r: bool)
    ensures
        r == glob_matches(pattern@, text@),
        is_literal(pattern@) ==> r == (pattern@ == text@),
        pattern@ == seq!['*'] ==> r,
{
    match glob::Pattern::new(pattern) {
        Ok(p) => p.matches(text),
        Err(_) => false,
    }
}

/// What `shlex` makes of a command line: its words, or nothing where quotes or escapes are left
/// open.
pub uninterp spec fn shell_words(line: Seq<char>) -> Option<Seq<Seq<char>>>;

/// The words of an optional list.
pub open spec fn opt_words(o: Option<Vec<String>>) -> Option<Seq<Seq<char>>> {
    match o {
        Some(v) => Some(strs(v@)),
        None => None,
    }
}

/// `shlex::split`: the words of the line, or nothing where it is malformed.
#[verifier::external_body]
pub(crate) fn split_words(line: &str) -> (r: Option<Vec<String>>)
    ensures
        opt_words(r) == shell_words(line@),
{
    shlex::split(line)
}

/// Whether `tool` is `m` with an argument list behind it, as in `Bash(git:*)` for `Bash`.
pub open spec fn names_with_arguments(m: Seq<char>, tool: Seq<char>) -> bool {
    m.is_prefix_of(tool) && tool.len() > m.len() && tool[m.len() as int] == '('
}

/// Whether a tool matches a matcher that is one name or pattern, given whether the pattern hits.
pub open spec fn name_matches_given(m: Seq<char>, tool: Seq<char>, hit: bool) -> bool {
    m == tool || hit || names_with_arguments(m, tool)
}

/// Whether a tool matches a matcher that is one name or pattern.
pub open spec fn name_matches(m: Seq<char>, tool: Seq<char>) -> bool {
    name_matches_given(m, tool, glob_matches(m, tool))
}

/// Whether `tool` is `m` with an argument list behind it.
pub fn has_arguments_after(m: &str, tool: &str) -> (r: bool)
    ensures
        r == names_with_arguments(m@, tool@),
{
    if !starts_with(tool, m) {
        return false;
    }
    let t = chars_of(tool);
    let n: usize = chars_of(m).len();
    n < t.len() && t[n] == '('
}

/// Whether a tool matches a matcher that is one name or pattern, given whether the pattern hits.
pub fn matches_name_given(m: &str, tool: &str, hit: bool) -> (r: bool)
    ensures
        r == name_matches_given(m@, tool@, hit),
{
    same(m, tool) || hit || has_arguments_after(m, tool)
}

/// Whether a tool matches a matcher that is one name or pattern.
pub fn matches_name(m: &str, tool: &str) -> (r: bool)
    ensures
        r == name_matches(m@, tool@),
{
    let hit = pattern_hits(m, tool);
    matches_name_given(m, tool, hit)
}

/// Whether a tool name matches a matcher of a skill: the star, a name, a pattern, or a name that
/// the tool has arguments behind.
pub fn tool_matcher(matcher: &str, tool_name: &str) -> (r: bool)
    ensures
        r == (matcher@ == "*"@ || name_matches(matcher@, tool_name@)),
{
    same(matcher, "*") || matches_name(matcher, tool_name)
}

/// Whether a tool matches a matcher, which may list alternatives between bars.
pub open spec fn tool_matches(m: Seq<char>, tool: Seq<char>) -> bool {
    m == tool || if m.contains('|') {
        exists|i: int|
            0 <= i < split(m, '|').len() && name_matches(trim(#[trigger] split(m, '|')[i]), tool)
    } else {
        name_matches(m, tool)
    }
}

/// Whether a hint matches a matcher: the matcher itself, one of its alternatives, or a pattern
/// that either is.
pub open spec fn hint_matches(m: Seq<char>, hint: Seq<char>) -> bool {
    ||| m == hint
    ||| exists|i: int|
        0 <= i < split(m, '|').len() && plain_matches(trim(#[trigger] split(m, '|')[i]), hint)
    ||| glob_matches(m, hint)
}

/// Whether a text is the pattern or matches it.
pub open spec fn plain_matches(p: Seq<char>, text: Seq<char>) -> bool {
    p == text || glob_matches(p, text)
}

/// Whether `s` holds the character `c`.
fn has_char(s: &str, c: char) -> (r: bool)
    ensures
        r == s@.contains(c),
{
    let v = chars_of(s);
    let mut i: usize = 0;
    while i < v.len()
        invariant
            v@ == s@,
            i <= v.len(),
            forall|k: int| 0 <= k < i ==> v@[k] != c,
        decreases v.len() - i,
    {
        if v[i] == c {
            assert(s@[i as int] == c);
            return true;
        }
        i = i + 1;
    }
    false
}

/// Whether a tool matches a matcher, which may list alternatives between bars.
pub fn matches_tool_name(matcher: &str, tool_name: &str) -> (r: bool)
    ensures
        r == tool_matches(matcher@, tool_name@),
{
    if same(matcher, tool_name) {
        return true;
    }
    if has_char(matcher, '|') {
        let parts = split_on(matcher, '|');
        let ghost all = split(matcher@, '|');
        let mut i: usize = 0;
        while i < parts.len()
            invariant
                matcher@.contains('|'),
                all == split(matcher@, '|'),
                strs(parts@) == all,
                i <= parts.len(),
                forall|k: int| 0 <= k < i ==> !name_matches(trim(#[trigger] all[k]), tool_name@),
            decreases parts.len() - i,
        {
            assert(all[i as int] == parts@[i as int]@);
            let part = trimmed(parts[i].as_str());
            if matches_name(part.as_str(), tool_name) {
                return true;
            }
            i = i + 1;
        }
        false
    } else {
        matches_name(matcher, tool_name)
    }
}

/// Whether a hint matches a matcher.
pub fn matches_hint(matcher: &str, hint: &str) -> (r: bool)
    ensures
        r == hint_matches(matcher@, hint@),
{
    if same(matcher, hint) {
        return true;
    }
    let parts = split_on(matcher, '|');
    let ghost all = split(matcher@, '|');
    let mut i: usize = 0;
    while i < parts.len()
        invariant
            all == split(matcher@, '|'),
            strs(parts@) == all,
            i <= parts.len(),
            forall|k: int| 0 <= k < i ==> !plain_matches(trim(#[trigger] all[k]), hint@),
        decreases parts.len() - i,
    {
        assert(all[i as int] == parts@[i as int]@);
        let part = trimmed(parts[i].as_str());
        if same(part.as_str(), hint) || pattern_hits(part.as_str(), hint) {
            assert(plain_matches(trim(all[i as int]), hint@));
            return true;
        }
        i = i + 1;
    }
    pattern_hits(matcher, hint)
}

/// A tool matches its own name, and the name of a tool also matches it with arguments behind it.
pub proof fn law_name_matches_itself_and_its_calls(tool: Seq<char>, arguments: Seq<char>)
    requires
        arguments.len() > 0,
        arguments[0] == '(',
    ensures
        tool_matches(tool, tool),
        name_matches(tool, tool + arguments),
        !tool.contains('|') ==> tool_matches(tool, tool + arguments),
{
    let call = tool + arguments;
    assert(call.subrange(0, tool.len() as int) == tool);
    assert(call[tool.len() as int] == '(');
}

/// A tool that one alternative of a matcher names is matched by the whole matcher.
pub proof fn law_alternatives_match(m: Seq<char>, i: int)
    requires
        m.contains('|'),
        0 <= i < split(m, '|').len(),
    ensures
        tool_matches(m, trim(split(m, '|')[i])),
        hint_matches(m, trim(split(m, '|')[i])),
{
    assert(name_matches(trim(split(m, '|')[i]), trim(split(m, '|')[i])));
    assert(plain_matches(trim(split(m, '|')[i]), trim(split(m, '|')[i])));
}

/// A name matches a tool only where it is the tool's name, or the tool has arguments behind it, or the
/// name is a pattern that hits the tool. Without bars a matcher is one name.
pub proof fn law_other_names_do_not_match(m: Seq<char>, tool: Seq<char>)
    requires
        m != tool,
        !glob_matches(m, tool),
        !(m.is_prefix_of(tool) && tool.len() > m.len() && tool[m.len() as int] == '('),
    ensures
        !name_matches(m, tool),
        !m.contains('|') ==> !tool_matches(m, tool),
{
}

} // verus!
