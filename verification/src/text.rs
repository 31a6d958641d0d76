//! Character-level text operations.
//!
//! A string is modelled by its view, a sequence of characters. Every function here is stated over
//! such sequences, so that the modules above can compose their contracts from the same vocabulary.

use vstd::prelude::*;

verus! {

// ── Standard-library operations without a specification of their own ────────────────────────

/// `<str as PartialEq>::eq` holds exactly when the two strings have the same characters.
pub assume_specification[ <str as PartialEq>::eq ](a: &str, b: &str) -> (r: bool)
    ensures
        r == (a@ == b@),
;

/// `String::push` appends the given character at the end.
pub assume_specification[ String::push ](s: &mut String, c: char)
    ensures
        final(s)@ == old(s)@.push(c),
;

/// `String::push_str` appends the given string slice at the end.
pub assume_specification[ String::push_str ](s: &mut String, t: &str)
    ensures
        final(s)@ == old(s)@ + t@,
;

// ── Models ──────────────────────────────────────────────────────────────────────────────────

/// The characters of each string in a list.
pub open spec fn strs(v: Seq<String>) -> Seq<Seq<char>> {
    v.map_values(|s: String| s@)
}

/// The characters of an optional string.
pub open spec fn opt_str(o: Option<String>) -> Option<Seq<char>> {
    match o {
        Some(s) => Some(s@),
        None => None,
    }
}

/// The Unicode `White_Space` property.
pub open spec fn is_white(c: char) -> bool {
    let n = c as u32;
    ||| 0x09 <= n <= 0x0d
    ||| n == 0x20
    ||| n == 0x85
    ||| n == 0xa0
    ||| n == 0x1680
    ||| 0x2000 <= n <= 0x200a
    ||| n == 0x2028
    ||| n == 0x2029
    ||| n == 0x202f
    ||| n == 0x205f
    ||| n == 0x3000
}

/// `s` without its leading white space.
pub open spec fn trim_start(s: Seq<char>) -> Seq<char>
    decreases s.len(),
{
    if s.len() > 0 && is_white(s[0]) {
        trim_start(s.drop_first())
    } else {
        s
    }
}

/// `s` without its trailing white space.
pub open spec fn trim_end(s: Seq<char>) -> Seq<char>
    decreases s.len(),
{
    if s.len() > 0 && is_white(s.last()) {
        trim_end(s.drop_last())
    } else {
        s
    }
}

/// `s` without leading and trailing white space.
pub open spec fn trim(s: Seq<char>) -> Seq<char> {
    trim_end(trim_start(s))
}

/// `s` without the leading run of the character `c`.
pub open spec fn strip_leading(s: Seq<char>, c: char) -> Seq<char>
    decreases s.len(),
{
    if s.len() > 0 && s[0] == c {
        strip_leading(s.drop_first(), c)
    } else {
        s
    }
}

/// `s` without the trailing run of the character `c`.
pub open spec fn strip_trailing(s: Seq<char>, c: char) -> Seq<char>
    decreases s.len(),
{
    if s.len() > 0 && s.last() == c {
        strip_trailing(s.drop_last(), c)
    } else {
        s
    }
}

/// Whether `p` stands in `s` at position `i`.
pub open spec fn occurs_at(s: Seq<char>, p: Seq<char>, i: int) -> bool {
    0 <= i && i + p.len() <= s.len() && s.subrange(i, i + p.len()) == p
}

/// Whether `p` stands somewhere in `s`.
pub open spec fn contains(s: Seq<char>, p: Seq<char>) -> bool {
    exists|i: int| occurs_at(s, p, i)
}

/// The first position at or after `from` where `p` stands in `s`.
pub open spec fn find_from(s: Seq<char>, p: Seq<char>, from: int) -> Option<int>
    decreases s.len() + 1 - from,
{
    if from < 0 || from + p.len() > s.len() {
        None
    } else if occurs_at(s, p, from) {
        Some(from)
    } else {
        find_from(s, p, from + 1)
    }
}

/// The first position where `p` stands in `s`.
pub open spec fn find(s: Seq<char>, p: Seq<char>) -> Option<int> {
    find_from(s, p, 0)
}

/// `s` with every occurrence of the non-empty `p`, taken from the left without overlap, replaced
/// by `to`.
pub open spec fn replace(s: Seq<char>, p: Seq<char>, to: Seq<char>) -> Seq<char>
    recommends
        p.len() > 0,
    decreases s.len(),
{
    if p.len() == 0 {
        s
    } else {
        match find(s, p) {
            None => s,
            Some(i) => if 0 <= i && i + p.len() <= s.len() {
                s.subrange(0, i) + to + replace(s.subrange(i + p.len(), s.len() as int), p, to)
            } else {
                s
            },
        }
    }
}

/// The pieces of `s` between the occurrences of `c`, in order; there is always at least one.
pub open spec fn split(s: Seq<char>, c: char) -> Seq<Seq<char>>
    decreases s.len(),
{
    if s.len() == 0 {
        seq![s]
    } else if s.last() == c {
        split(s.drop_last(), c).push(Seq::empty())
    } else {
        let before = split(s.drop_last(), c);
        before.drop_last().push(before.last().push(s.last()))
    }
}

/// The maximal runs of `s` without white space, in order.
pub open spec fn words(s: Seq<char>) -> Seq<Seq<char>>
    decreases s.len(),
{
    if s.len() == 0 {
        Seq::empty()
    } else if is_white(s.last()) {
        words(s.drop_last())
    } else if s.len() == 1 || is_white(s[s.len() - 2]) {
        words(s.drop_last()).push(seq![s.last()])
    } else {
        let before = words(s.drop_last());
        before.drop_last().push(before.last().push(s.last()))
    }
}

/// The parts in order, with `sep` between neighbours.
pub open spec fn join(parts: Seq<Seq<char>>, sep: Seq<char>) -> Seq<char>
    decreases parts.len(),
{
    if parts.len() == 0 {
        Seq::empty()
    } else if parts.len() == 1 {
        parts[0]
    } else {
        join(parts.drop_last(), sep) + sep + parts.last()
    }
}

/// How often `c` stands in `s`.
pub open spec fn count_char(s: Seq<char>, c: char) -> nat
    decreases s.len(),
{
    if s.len() == 0 {
        0
    } else {
        count_char(s.drop_last(), c) + if s.last() == c {
            1nat
        } else {
            0nat
        }
    }
}

/// The decimal digit with the value `d`.
pub open spec fn digit(d: nat) -> char {
    if d == 0 {
        '0'
    } else if d == 1 {
        '1'
    } else if d == 2 {
        '2'
    } else if d == 3 {
        '3'
    } else if d == 4 {
        '4'
    } else if d == 5 {
        '5'
    } else if d == 6 {
        '6'
    } else if d == 7 {
        '7'
    } else if d == 8 {
        '8'
    } else {
        '9'
    }
}

/// The decimal notation of a natural number.
pub open spec fn decimal(n: nat) -> Seq<char>
    decreases n,
{
    if n < 10 {
        seq![digit(n)]
    } else {
        decimal(n / 10).push(digit(n % 10))
    }
}

/// The decimal notation of an integer, with a minus sign in front of a negative one.
pub open spec fn decimal_int(n: int) -> Seq<char> {
    if n < 0 {
        seq!['-'] + decimal((-n) as nat)
    } else {
        decimal(n as nat)
    }
}

/// A character with `A` to `Z` mapped to `a` to `z`.
pub open spec fn lower_char(c: char) -> char {
    if 'A' <= c <= 'Z' {
        ((c as u32 + 32) as u32) as char
    } else {
        c
    }
}

/// A text with `A` to `Z` mapped to `a` to `z`.
pub open spec fn lower_ascii(s: Seq<char>) -> Seq<char> {
    s.map_values(|c: char| lower_char(c))
}

/// Whether `a` stands strictly before `b` in the order of their scalar values.
pub open spec fn lex_lt(a: Seq<char>, b: Seq<char>) -> bool
    decreases a.len(),
{
    if b.len() == 0 {
        false
    } else if a.len() == 0 {
        true
    } else if a[0] == b[0] {
        lex_lt(a.drop_first(), b.drop_first())
    } else {
        a[0] < b[0]
    }
}

// ── Operations ──────────────────────────────────────────────────────────────────────────────

/// Whether two strings have the same characters.
pub fn same(a: &str, b: &str) -> (r: bool)
    ensures
        r == (a@ == b@),
{
    *a == *b
}

/// The characters of a string.
pub fn chars_of(s: &str) -> (v: Vec<char>)
    ensures
        v@ == s@,
{
    let mut v: Vec<char> = Vec::new();
    for c in it: s.chars()
        invariant
            it.seq() == s@,
            v@ == s@.take(it.index()),
    {
        v.push(c);
    }
    v
}

/// The string made of the characters `v[from..to]`.
pub fn string_of(v: &Vec<char>, from: usize, to: usize) -> (s: String)
    requires
        from <= to <= v.len(),
    ensures
        s@ == v@.subrange(from as int, to as int),
{
    let mut s = String::new();
    let mut i: usize = from;
    while i < to
        invariant
            from <= i <= to <= v.len(),
            s@ == v@.subrange(from as int, i as int),
        decreases to - i,
    {
        s.push(v[i]);
        i = i + 1;
    }
    s
}

/// Whether a character is white space.
pub fn is_white_char(c: char) -> (r: bool)
    ensures
        r == is_white(c),
{
    let n: u32 = c as u32;
    (0x09 <= n && n <= 0x0d) || n == 0x20 || n == 0x85 || n == 0xa0 || n == 0x1680 || (0x2000 <= n
        && n <= 0x200a) || n == 0x2028 || n == 0x2029 || n == 0x202f || n == 0x205f || n == 0x3000
}

/// The string without leading and trailing white space.
pub fn trimmed(s: &str) -> (r: String)
    ensures
        r@ == trim(s@),
{
    let v = chars_of(s);
    let n: usize = v.len();
    let mut i: usize = 0;
    while i < n && is_white_char(v[i])
        invariant
            i <= n == v.len(),
            forall|k: int| 0 <= k < i ==> is_white(#[trigger] v@[k]),
        decreases n - i,
    {
        i = i + 1;
    }
    let ghost rest = v@.subrange(i as int, n as int);
    proof {
        lemma_trim_start_skip(v@, i as int);
        assert(trim_start(rest) == rest);
    }
    let mut j: usize = n;
    while i < j && is_white_char(v[j - 1])
        invariant
            i <= j <= n == v.len(),
            rest == v@.subrange(i as int, n as int),
            forall|k: int| j <= k < n ==> is_white(#[trigger] v@[k]),
        decreases j - i,
    {
        j = j - 1;
    }
    proof {
        lemma_trim_end_skip(rest, (j - i) as int);
        assert(rest.take((j - i) as int) == v@.subrange(i as int, j as int));
    }
    string_of(&v, i, j)
}

/// Skipping white space at the front does not change what `trim_start` leaves.
pub proof fn lemma_trim_start_skip(s: Seq<char>, i: int)
    requires
        0 <= i <= s.len(),
        forall|k: int| 0 <= k < i ==> is_white(#[trigger] s[k]),
    ensures
        trim_start(s) == trim_start(s.subrange(i, s.len() as int)),
    decreases i,
{
    if i > 0 {
        let t = s.drop_first();
        assert(is_white(s[0]));
        assert forall|k: int| 0 <= k < i - 1 implies is_white(#[trigger] t[k]) by {
            assert(t[k] == s[k + 1]);
        }
        lemma_trim_start_skip(t, i - 1);
        assert(t.subrange(i - 1, t.len() as int) == s.subrange(i, s.len() as int));
    } else {
        assert(s.subrange(0, s.len() as int) == s);
    }
}

/// Dropping white space at the end does not change what `trim_end` leaves.
pub proof fn lemma_trim_end_skip(s: Seq<char>, j: int)
    requires
        0 <= j <= s.len(),
        forall|k: int| j <= k < s.len() ==> is_white(#[trigger] s[k]),
    ensures
        trim_end(s) == trim_end(s.take(j)),
    decreases s.len() - j,
{
    if j < s.len() {
        assert(is_white(s.last()));
        let t = s.drop_last();
        assert forall|k: int| j <= k < t.len() implies is_white(#[trigger] t[k]) by {
            assert(t[k] == s[k]);
        }
        lemma_trim_end_skip(t, j);
        assert(t.take(j) == s.take(j));
    } else {
        assert(s.take(j) == s);
    }
}

/// Whether `p` stands in `s` at position `i`.
pub fn occurs_at_pos(s: &Vec<char>, p: &Vec<char>, i: usize) -> (r: bool)
    ensures
        r == occurs_at(s@, p@, i as int),
{
    if i > s.len() || p.len() > s.len() - i {
        return false;
    }
    let mut k: usize = 0;
    while k < p.len()
        invariant
            k <= p.len(),
            i + p.len() <= s.len(),
            forall|j: int| 0 <= j < k ==> s@[i + j] == #[trigger] p@[j],
        decreases p.len() - k,
    {
        if s[i + k] != p[k] {
            assert(s@.subrange(i as int, i + p.len())[k as int] != p@[k as int]);
            return false;
        }
        k = k + 1;
    }
    assert(s@.subrange(i as int, i + p.len()) == p@);
    true
}

/// The first position at or after `from` where `p` stands in `s`.
pub fn find_pos(s: &Vec<char>, p: &Vec<char>, from: usize) -> (r: Option<usize>)
    requires
        from <= s.len(),
    ensures
        match r {
            Some(i) => find_from(s@, p@, from as int) == Some(i as int),
            None => find_from(s@, p@, from as int) is None,
        },
{
    let mut i: usize = from;
    while p.len() <= s.len() - i
        invariant
            from <= i <= s.len(),
            find_from(s@, p@, from as int) == find_from(s@, p@, i as int),
        decreases s.len() - i,
    {
        if occurs_at_pos(s, p, i) {
            return Some(i);
        }
        if i == s.len() {
            assert(find_from(s@, p@, i + 1) is None);
            return None;
        }
        i = i + 1;
    }
    None
}

/// What `find_from` found, and that nothing was passed over.
pub proof fn lemma_find_from(s: Seq<char>, p: Seq<char>, from: int)
    requires
        0 <= from,
    ensures
        match find_from(s, p, from) {
            Some(i) => from <= i && occurs_at(s, p, i) && forall|j: int|
                from <= j < i ==> !#[trigger] occurs_at(s, p, j),
            None => forall|j: int| from <= j ==> !#[trigger] occurs_at(s, p, j),
        },
    decreases s.len() + 1 - from,
{
    if from + p.len() <= s.len() && !occurs_at(s, p, from) {
        lemma_find_from(s, p, from + 1);
    }
}

/// Searching a suffix is searching from its start.
pub proof fn lemma_find_shift(s: Seq<char>, p: Seq<char>, k: int, from: int)
    requires
        0 <= k <= from,
        k <= s.len(),
    ensures
        find_from(s.subrange(k, s.len() as int), p, from - k) == match find_from(s, p, from) {
            Some(i) => Some(i - k),
            None => None,
        },
    decreases s.len() + 1 - from,
{
    let t = s.subrange(k, s.len() as int);
    if from + p.len() <= s.len() {
        assert(t.subrange(from - k, from - k + p.len()) == s.subrange(from, from + p.len()));
        if !occurs_at(s, p, from) {
            lemma_find_shift(s, p, k, from + 1);
        }
    }
}

/// Whether `p` stands somewhere in `s`.
pub fn contains_str(s: &str, p: &str) -> (r: bool)
    ensures
        r == contains(s@, p@),
{
    let sv = chars_of(s);
    let pv = chars_of(p);
    proof {
        lemma_find_from(s@, p@, 0);
    }
    match find_pos(&sv, &pv, 0) {
        Some(i) => {
            assert(occurs_at(s@, p@, i as int));
            true
        },
        None => {
            assert forall|i: int| !occurs_at(s@, p@, i) by {
                if 0 <= i {
                }
            }
            false
        },
    }
}

/// Whether `s` begins with `p`.
pub fn starts_with(s: &str, p: &str) -> (r: bool)
    ensures
        r == p@.is_prefix_of(s@),
{
    let sv = chars_of(s);
    let pv = chars_of(p);
    occurs_at_pos(&sv, &pv, 0)
}

/// Whether `s` ends with `p`.
pub fn ends_with(s: &str, p: &str) -> (r: bool)
    ensures
        r == p@.is_suffix_of(s@),
{
    let sv = chars_of(s);
    let pv = chars_of(p);
    if pv.len() > sv.len() {
        return false;
    }
    occurs_at_pos(&sv, &pv, sv.len() - pv.len())
}

/// The string with every occurrence of the non-empty `p` replaced by `to`.
pub fn replaced(s: &str, p: &str, to: &str) -> (r: String)
    requires
        p@.len() > 0,
    ensures
        r@ == replace(s@, p@, to@),
{
    let sv = chars_of(s);
    let pv = chars_of(p);
    let n: usize = sv.len();
    let mut out = String::new();
    let mut pos: usize = 0;
    assert(s@.subrange(0, n as int) == s@);
    loop
        invariant_except_break
            replace(s@, p@, to@) == out@ + replace(s@.subrange(pos as int, n as int), p@, to@),
        invariant
            sv@ == s@,
            pv@ == p@,
            p@.len() > 0,
            pos <= n == sv.len(),
        ensures
            out@ == replace(s@, p@, to@),
        decreases n - pos,
    {
        let ghost rest = s@.subrange(pos as int, n as int);
        proof {
            lemma_find_shift(s@, p@, pos as int, pos as int);
            lemma_find_from(s@, p@, pos as int);
        }
        match find_pos(&sv, &pv, pos) {
            Some(i) => {
                let ghost before = out@;
                let ghost k = (i - pos) as int;
                let piece = string_of(&sv, pos, i);
                out.push_str(piece.as_str());
                out.push_str(to);
                proof {
                    assert(rest.subrange(0, k) == piece@);
                    assert(rest.subrange(k + p@.len(), rest.len() as int) == s@.subrange(
                        i + p@.len(),
                        n as int,
                    ));
                    assert(out@ == before + (piece@ + to@));
                }
                pos = i + pv.len();
            },
            None => {
                let piece = string_of(&sv, pos, n);
                out.push_str(piece.as_str());
                break;
            },
        }
    }
    out
}

/// The pieces of a string between the occurrences of `c`.
pub fn split_on(s: &str, c: char) -> (r: Vec<String>)
    ensures
        strs(r@) == split(s@, c),
{
    let v = chars_of(s);
    let mut parts: Vec<String> = Vec::new();
    let mut cur = String::new();
    let mut i: usize = 0;
    assert(s@.take(0) == Seq::<char>::empty());
    assert(strs(parts@).push(cur@) == seq![Seq::<char>::empty()]);
    while i < v.len()
        invariant
            v@ == s@,
            i <= v.len(),
            strs(parts@).push(cur@) == split(s@.take(i as int), c),
        decreases v.len() - i,
    {
        let ghost t = s@.take(i + 1);
        let ghost old_parts = parts@;
        let ghost old_cur = cur@;
        assert(t.drop_last() == s@.take(i as int));
        assert(t.last() == v@[i as int]);
        let d: char = v[i];
        if d == c {
            parts.push(cur);
            cur = String::new();
            assert(strs(parts@) == strs(old_parts).push(old_cur));
        } else {
            cur.push(d);
            assert(strs(old_parts).push(old_cur).drop_last() == strs(old_parts));
        }
        i = i + 1;
    }
    assert(s@.take(s@.len() as int) == s@);
    let ghost old_parts = parts@;
    let ghost old_cur = cur@;
    parts.push(cur);
    assert(strs(parts@) == strs(old_parts).push(old_cur));
    parts
}

/// The maximal runs of a string without white space.
pub fn words_of(s: &str) -> (r: Vec<String>)
    ensures
        strs(r@) == words(s@),
{
    let v = chars_of(s);
    let mut parts: Vec<String> = Vec::new();
    let mut i: usize = 0;
    assert(s@.take(0) == Seq::<char>::empty());
    assert(strs(parts@) == words(s@.take(0)));
    while i < v.len()
        invariant
            v@ == s@,
            i <= v.len(),
            strs(parts@) == words(s@.take(i as int)),
            i > 0 && !is_white(v@[i - 1]) ==> parts.len() > 0,
        decreases v.len() - i,
    {
        let ghost t = s@.take(i + 1);
        let ghost old_parts = parts@;
        assert(t.drop_last() == s@.take(i as int));
        assert(t.last() == v@[i as int]);
        let d: char = v[i];
        if is_white_char(d) {
        } else if i == 0 || is_white_char(v[i - 1]) {
            let mut w = String::new();
            w.push(d);
            parts.push(w);
            assert(w@ == seq![d]);
            assert(strs(parts@) == strs(old_parts).push(seq![d]));
        } else {
            assert(t[t.len() - 2] == v@[i - 1]);
            let n: usize = parts.len();
            match parts.pop() {
                Some(mut w) => {
                    let ghost ow = w@;
                    w.push(d);
                    assert(strs(old_parts).last() == ow);
                    let ghost mid = parts@;
                    assert(mid == old_parts.drop_last());
                    parts.push(w);
                    assert(strs(parts@) == strs(mid).push(ow.push(d)));
                    assert(strs(mid) == strs(old_parts).drop_last());
                },
                None => {},
            }
        }
        i = i + 1;
    }
    assert(s@.take(s@.len() as int) == s@);
    parts
}

/// The strings in order, with `sep` between neighbours.
pub fn joined(parts: &Vec<String>, sep: &str) -> (r: String)
    ensures
        r@ == join(strs(parts@), sep@),
{
    let mut out = String::new();
    let mut i: usize = 0;
    let ghost all = strs(parts@);
    assert(all.take(0) == Seq::<Seq<char>>::empty());
    while i < parts.len()
        invariant
            i <= parts.len(),
            all == strs(parts@),
            out@ == join(all.take(i as int), sep@),
        decreases parts.len() - i,
    {
        proof {
            let t = all.take(i + 1);
            assert(t.drop_last() == all.take(i as int));
            assert(t.last() == parts@[i as int]@);
            if i == 0 {
                assert(out@ + parts@[0]@ == parts@[0]@);
            }
        }
        if i > 0 {
            out.push_str(sep);
        }
        out.push_str(parts[i].as_str());
        i = i + 1;
    }
    assert(all.take(parts.len() as int) == all);
    out
}

/// The number of occurrences of `c`.
pub fn count_of(s: &str, c: char) -> (r: usize)
    ensures
        r == count_char(s@, c),
{
    let v = chars_of(s);
    let mut n: usize = 0;
    let mut i: usize = 0;
    assert(s@.take(0) == Seq::<char>::empty());
    while i < v.len()
        invariant
            v@ == s@,
            n <= i <= v.len(),
            n == count_char(s@.take(i as int), c),
        decreases v.len() - i,
    {
        proof {
            let t = s@.take(i + 1);
            assert(t.drop_last() == s@.take(i as int));
            assert(t.last() == v@[i as int]);
        }
        if v[i] == c {
            n = n + 1;
        }
        i = i + 1;
    }
    assert(s@.take(s@.len() as int) == s@);
    n
}

/// The string without the leading run of `c`.
pub fn without_leading(s: &str, c: char) -> (r: String)
    ensures
        r@ == strip_leading(s@, c),
{
    let v = chars_of(s);
    let mut i: usize = 0;
    assert(s@.subrange(0, s@.len() as int) == s@);
    while i < v.len() && v[i] == c
        invariant
            v@ == s@,
            i <= v.len(),
            strip_leading(s@, c) == strip_leading(s@.subrange(i as int, s@.len() as int), c),
        decreases v.len() - i,
    {
        let ghost t = s@.subrange(i as int, s@.len() as int);
        assert(t.drop_first() == s@.subrange(i + 1, s@.len() as int));
        i = i + 1;
    }
    string_of(&v, i, v.len())
}

/// The string without the trailing run of `c`.
pub fn without_trailing(s: &str, c: char) -> (r: String)
    ensures
        r@ == strip_trailing(s@, c),
{
    let v = chars_of(s);
    let mut j: usize = v.len();
    assert(s@.subrange(0, s@.len() as int) == s@);
    while 0 < j && v[j - 1] == c
        invariant
            v@ == s@,
            j <= v.len(),
            strip_trailing(s@, c) == strip_trailing(s@.subrange(0, j as int), c),
        decreases j,
    {
        let ghost t = s@.subrange(0, j as int);
        assert(t.drop_last() == s@.subrange(0, j - 1));
        j = j - 1;
    }
    string_of(&v, 0, j)
}

/// The decimal digit with the value `d`.
fn digit_char(d: u64) -> (c: char)
    requires
        d < 10,
    ensures
        c == digit(d as nat),
{
    if d == 0 {
        '0'
    } else if d == 1 {
        '1'
    } else if d == 2 {
        '2'
    } else if d == 3 {
        '3'
    } else if d == 4 {
        '4'
    } else if d == 5 {
        '5'
    } else if d == 6 {
        '6'
    } else if d == 7 {
        '7'
    } else if d == 8 {
        '8'
    } else {
        '9'
    }
}

/// The decimal notation of an unsigned number.
pub fn number(n: u64) -> (r: String)
    ensures
        r@ == decimal(n as nat),
    decreases n,
{
    let mut s = if n < 10 {
        String::new()
    } else {
        number(n / 10)
    };
    s.push(digit_char(n % 10));
    assert(n < 10 ==> s@ == seq![digit(n as nat)]);
    s
}

/// The decimal notation of a signed number.
pub fn number_signed(n: i32) -> (r: String)
    ensures
        r@ == decimal_int(n as int),
{
    if n < 0 {
        let mut s = String::new();
        s.push('-');
        let m: i64 = -(n as i64);
        let t = number(m as u64);
        s.push_str(t.as_str());
        assert(s@ == seq!['-'] + t@);
        s
    } else {
        number(n as u64)
    }
}

/// The string with `A` to `Z` mapped to `a` to `z`.
pub fn lowered(s: &str) -> (r: String)
    ensures
        r@ == lower_ascii(s@),
{
    let v = chars_of(s);
    let mut out = String::new();
    let mut i: usize = 0;
    while i < v.len()
        invariant
            v@ == s@,
            i <= v.len(),
            out@ == lower_ascii(s@.take(i as int)),
        decreases v.len() - i,
    {
        let c: char = v[i];
        let d: char = if 'A' <= c && c <= 'Z' {
            let b: u8 = c as u8;
            (b + 32u8) as char
        } else {
            c
        };
        assert(d == lower_char(c));
        out.push(d);
        assert(lower_ascii(s@.take(i + 1)) == lower_ascii(s@.take(i as int)).push(lower_char(c)));
        i = i + 1;
    }
    assert(s@.take(s@.len() as int) == s@);
    out
}

/// Whether `a` stands strictly before `b` in the order of their scalar values.
pub fn before(a: &str, b: &str) -> (r: bool)
    ensures
        r == lex_lt(a@, b@),
{
    let av = chars_of(a);
    let bv = chars_of(b);
    let mut i: usize = 0;
    assert(a@.subrange(0, a@.len() as int) == a@);
    assert(b@.subrange(0, b@.len() as int) == b@);
    while i < av.len() && i < bv.len()
        invariant
            av@ == a@,
            bv@ == b@,
            i <= av.len(),
            i <= bv.len(),
            lex_lt(a@, b@) == lex_lt(
                a@.subrange(i as int, a@.len() as int),
                b@.subrange(i as int, b@.len() as int),
            ),
        decreases av.len() - i,
    {
        let ghost x = a@.subrange(i as int, a@.len() as int);
        let ghost y = b@.subrange(i as int, b@.len() as int);
        assert(x.drop_first() == a@.subrange(i + 1, a@.len() as int));
        assert(y.drop_first() == b@.subrange(i + 1, b@.len() as int));
        assert(x[0] == av@[i as int] && y[0] == bv@[i as int]);
        if av[i] != bv[i] {
            return av[i] < bv[i];
        }
        i = i + 1;
    }
    i < bv.len()
}

// ── Lists of strings ────────────────────────────────────────────────────────────────────────

/// Appends a string to a list.
pub fn add_to(list: &mut Vec<String>, s: &str)
    ensures
        strs(final(list)@) == strs(old(list)@).push(s@),
{
    list.push(s.to_owned());
    assert(strs(list@) =~= strs(old(list)@).push(s@));
}

/// Appends the strings of one list to another.
pub fn extend(list: &mut Vec<String>, more: Vec<String>)
    ensures
        strs(final(list)@) == strs(old(list)@) + strs(more@),
{
    let mut rest = more;
    list.append(&mut rest);
    assert(strs(list@) =~= strs(old(list)@) + strs(more@));
}

/// The empty list.
pub fn no_strings() -> (r: Vec<String>)
    ensures
        strs(r@) == Seq::<Seq<char>>::empty(),
{
    let r: Vec<String> = Vec::new();
    assert(strs(r@) =~= Seq::<Seq<char>>::empty());
    r
}

/// Whether a list holds a string.
pub fn has_string(list: &Vec<String>, s: &str) -> (r: bool)
    ensures
        r == strs(list@).contains(s@),
{
    let mut i: usize = 0;
    while i < list.len()
        invariant
            i <= list.len(),
            forall|k: int| 0 <= k < i ==> (#[trigger] list@[k])@ != s@,
        decreases list.len() - i,
    {
        if same(list[i].as_str(), s) {
            assert(strs(list@)[i as int] == s@);
            return true;
        }
        i = i + 1;
    }
    assert forall|k: int| 0 <= k < strs(list@).len() implies strs(list@)[k] != s@ by {
        assert(list@[k]@ != s@);
    }
    false
}

/// Two texts, one behind the other.
pub fn concat(a: &str, b: &str) -> (r: String)
    ensures
        r@ == a@ + b@,
{
    let mut r = a.to_owned();
    r.push_str(b);
    r
}

// ── Bytes ───────────────────────────────────────────────────────────────────────────────────

/// The number of bytes of a character.
pub open spec fn char_bytes(c: char) -> nat {
    if c as u32 <= 0x7f {
        1
    } else if c as u32 <= 0x7ff {
        2
    } else if c as u32 <= 0xffff {
        3
    } else {
        4
    }
}

/// The number of bytes of a text.
pub open spec fn text_bytes(s: Seq<char>) -> nat
    decreases s.len(),
{
    if s.len() == 0 {
        0
    } else {
        text_bytes(s.drop_last()) + char_bytes(s.last())
    }
}

/// The number of characters at the front of a text that fit in `max` bytes.
pub open spec fn fitting(s: Seq<char>, max: int) -> nat
    decreases s.len(),
{
    if text_bytes(s) <= max || s.len() == 0 {
        s.len()
    } else {
        fitting(s.drop_last(), max)
    }
}

/// The number of bytes of a character.
fn width_of(c: char) -> (r: u64)
    ensures
        r == char_bytes(c),
        1 <= r <= 4,
{
    let n: u32 = c as u32;
    if n <= 0x7f {
        1
    } else if n <= 0x7ff {
        2
    } else if n <= 0xffff {
        3
    } else {
        4
    }
}

proof fn lemma_bytes_bound(s: Seq<char>)
    ensures
        s.len() <= text_bytes(s) <= 4 * s.len(),
    decreases s.len(),
{
    if s.len() > 0 {
        lemma_bytes_bound(s.drop_last());
    }
}

proof fn lemma_bytes_grow(s: Seq<char>, i: int)
    requires
        0 <= i <= s.len(),
    ensures
        text_bytes(s.take(i)) <= text_bytes(s),
    decreases s.len(),
{
    if i < s.len() {
        lemma_bytes_grow(s.drop_last(), i);
        assert(s.drop_last().take(i) =~= s.take(i));
    } else {
        assert(s.take(i) =~= s);
    }
}

/// A prefix that fits, followed by a character that does not, is what fits.
proof fn lemma_fitting(s: Seq<char>, i: int, max: int)
    requires
        0 <= i <= s.len(),
        0 <= max,
        text_bytes(s.take(i)) <= max,
        i < s.len() ==> text_bytes(s.take(i + 1)) > max,
    ensures
        fitting(s, max) == i,
    decreases s.len(),
{
    if i == s.len() {
        assert(s.take(i) =~= s);
    } else {
        lemma_bytes_grow(s, i + 1);
        let t = s.drop_last();
        assert(t.take(i) =~= s.take(i));
        if i < t.len() {
            assert(t.take(i + 1) =~= s.take(i + 1));
        }
        lemma_fitting(t, i, max);
    }
}

/// The front of a text that fits in `max` bytes, and whether that is less than the whole.
pub fn fit_bytes(s: &str, max: u64) -> (r: (String, bool))
    ensures
        r.0@ == s@.take(fitting(s@, max as int) as int),
        r.1 == (text_bytes(s@) > max),
{
    let v = chars_of(s);
    let mut used: u64 = 0;
    let mut i: usize = 0;
    assert(s@.take(0) =~= Seq::<char>::empty());
    while i < v.len()
        invariant
            v@ == s@,
            i <= v.len(),
            used <= max,
            used == text_bytes(s@.take(i as int)),
        decreases v.len() - i,
    {
        let w: u64 = width_of(v[i]);
        proof {
            let t = s@.take(i + 1);
            assert(t.drop_last() =~= s@.take(i as int));
            assert(t.last() == v@[i as int]);
        }
        if w > max - used {
            proof {
                lemma_fitting(s@, i as int, max as int);
                lemma_bytes_grow(s@, i + 1);
            }
            return (string_of(&v, 0, i), true);
        }
        used = used + w;
        i = i + 1;
    }
    proof {
        lemma_fitting(s@, i as int, max as int);
        assert(s@.take(s@.len() as int) =~= s@);
    }
    (string_of(&v, 0, i), false)
}

// ── Lines ───────────────────────────────────────────────────────────────────────────────────

/// A text without one carriage return at its end.
pub open spec fn without_return(s: Seq<char>) -> Seq<char> {
    if s.len() > 0 && s.last() == '\r' {
        s.drop_last()
    } else {
        s
    }
}

/// The lines of a text: what stands before each line feed, without a carriage return at its end,
/// and what stands behind the last one where anything does.
pub open spec fn lines(s: Seq<char>) -> Seq<Seq<char>> {
    let pieces = split(s, '\n');
    let ended = pieces.drop_last().map_values(|p: Seq<char>| without_return(p));
    if pieces.last().len() == 0 {
        ended
    } else {
        ended.push(pieces.last())
    }
}

/// The lines of a text.
pub fn lines_of(s: &str) -> (r: Vec<String>)
    ensures
        strs(r@) == lines(s@),
{
    let pieces = split_on(s, '\n');
    let ghost all = split(s@, '\n');
    proof {
        lemma_split_some(s@, '\n');
    }
    let mut out: Vec<String> = Vec::new();
    let mut i: usize = 0;
    while i + 1 < pieces.len()
        invariant
            strs(pieces@) == all,
            all.len() > 0,
            i < pieces.len(),
            out.len() == i,
            forall|k: int| 0 <= k < i ==> (#[trigger] out@[k])@ == without_return(all[k]),
        decreases pieces.len() - i,
    {
        let v = chars_of(pieces[i].as_str());
        assert(v@ == all[i as int]);
        let n: usize = v.len();
        let line = if n > 0 && v[n - 1] == '\r' {
            string_of(&v, 0, n - 1)
        } else {
            string_of(&v, 0, n)
        };
        assert(line@ =~= without_return(all[i as int]));
        out.push(line);
        i = i + 1;
    }
    let ghost ended = all.drop_last().map_values(|p: Seq<char>| without_return(p));
    assert(strs(out@) =~= ended);
    assert(all.last() == pieces@[i as int]@);
    if !pieces[i].as_str().is_empty() {
        let ghost prev = out@;
        out.push(pieces[i].clone());
        assert(strs(out@) =~= strs(prev).push(all.last()));
    }
    out
}

pub proof fn lemma_split_some(s: Seq<char>, c: char)
    ensures
        split(s, c).len() > 0,
    decreases s.len(),
{
    if s.len() > 0 {
        lemma_split_some(s.drop_last(), c);
    }
}

/// The number of bytes of a text.
pub fn byte_count(s: &str) -> (r: u128)
    ensures
        r == text_bytes(s@),
{
    let v = chars_of(s);
    let mut n: u128 = 0;
    let mut i: usize = 0;
    assert(s@.take(0) =~= Seq::<char>::empty());
    while i < v.len()
        invariant
            v@ == s@,
            i <= v.len(),
            n == text_bytes(s@.take(i as int)),
            n <= 4 * i,
        decreases v.len() - i,
    {
        proof {
            let t = s@.take(i + 1);
            assert(t.drop_last() =~= s@.take(i as int));
            assert(t.last() == v@[i as int]);
        }
        n = n + width_of(v[i]) as u128;
        i = i + 1;
    }
    assert(s@.take(s@.len() as int) =~= s@);
    n
}

/// The decimal notation of a large unsigned number.
pub fn number_large(n: u128) -> (r: String)
    ensures
        r@ == decimal(n as nat),
    decreases n,
{
    let mut s = if n < 10 {
        String::new()
    } else {
        number_large(n / 10)
    };
    s.push(digit_char((n % 10) as u64));
    assert(n < 10 ==> s@ == seq![digit(n as nat)]);
    s
}

// ── Case of any script ──────────────────────────────────────────────────────────────────────

/// Whether a text holds nothing but ASCII characters.
pub open spec fn all_ascii(s: Seq<char>) -> bool {
    forall|i: int| 0 <= i < s.len() ==> (#[trigger] s[i] as u32) < 128
}

/// A text in lower case, by the rules of Unicode.
pub uninterp spec fn lower_text(s: Seq<char>) -> Seq<char>;

/// A text in upper case, by the rules of Unicode.
pub uninterp spec fn upper_text(s: Seq<char>) -> Seq<char>;

/// The character in upper case, where it is an ASCII letter.
pub open spec fn upper_char(c: char) -> char {
    if 'a' <= c && c <= 'z' {
        ((c as u32 - 32) as u32) as char
    } else {
        c
    }
}

/// A text with its ASCII letters in upper case.
pub open spec fn upper_ascii(s: Seq<char>) -> Seq<char> {
    s.map_values(|c: char| upper_char(c))
}

/// `str::to_lowercase`: the lower case of every character; for ASCII text that of its letters.
#[verifier::external_body]
pub(crate) fn to_lower(s: &str) -> (r: String)
    ensures
        r@ == lower_text(s@),
        all_ascii(s@) ==> r@ == lower_ascii(s@),
{
    s.to_lowercase()
}

/// `str::to_uppercase`: the upper case of every character; for ASCII text that of its letters.
#[verifier::external_body]
pub(crate) fn to_upper(s: &str) -> (r: String)
    ensures
        r@ == upper_text(s@),
        all_ascii(s@) ==> r@ == upper_ascii(s@),
{
    s.to_uppercase()
}

/// The position of the first `c` at or behind `from`.
pub open spec fn char_from(s: Seq<char>, c: char, from: int) -> Option<int>
    decreases s.len() - from,
{
    if from < 0 || from >= s.len() {
        None
    } else if s[from] == c {
        Some(from)
    } else {
        char_from(s, c, from + 1)
    }
}

/// The characters of each pair of strings.
pub open spec fn pairs(v: Seq<(String, String)>) -> Seq<(Seq<char>, Seq<char>)> {
    v.map_values(|p: (String, String)| (p.0@, p.1@))
}

// ── Laws ────────────────────────────────────────────────────────────────────────────────────

/// A text is cut at each `c`: what stands before one is cut by itself, and so is what stands behind
/// it; a text without `c` is one piece.
pub proof fn law_text_is_split_at_each(a: Seq<char>, b: Seq<char>, c: char)
    ensures
        split(a + seq![c] + b, c) == split(a, c) + split(b, c),
        !a.contains(c) ==> split(a, c) == seq![a],
    decreases a.len() + b.len(),
{
    let s = a + seq![c] + b;
    if b.len() == 0 {
        assert(s =~= a.push(c));
        assert(s.drop_last() =~= a);
        assert(split(b, c) =~= seq![Seq::<char>::empty()]) by {
            assert(b =~= Seq::<char>::empty());
        }
        assert(split(a, c).push(Seq::empty()) =~= split(a, c) + split(b, c));
    } else {
        let t = b.drop_last();
        law_text_is_split_at_each(a, t, c);
        assert(s.drop_last() =~= a + seq![c] + t);
        assert(s.last() == b.last());
        lemma_split_some(t, c);
        lemma_split_some(a, c);
        let before = split(a, c) + split(t, c);
        if b.last() == c {
            assert(before.push(Seq::empty()) =~= split(a, c) + split(t, c).push(Seq::empty()));
        } else {
            assert(before.last() == split(t, c).last());
            assert(before.drop_last() =~= split(a, c) + split(t, c).drop_last());
            assert(split(s, c) =~= split(a, c) + split(b, c));
        }
    }
    if !a.contains(c) {
        lemma_split_whole(a, c);
    }
}

proof fn lemma_split_whole(a: Seq<char>, c: char)
    requires
        !a.contains(c),
    ensures
        split(a, c) == seq![a],
    decreases a.len(),
{
    if a.len() > 0 {
        assert(a.contains(a.last()));
        assert forall|i: int| 0 <= i < a.drop_last().len() implies a.drop_last()[i] != c by {
            assert(a.contains(a[i]));
        }
        lemma_split_whole(a.drop_last(), c);
        assert(a.drop_last().push(a.last()) =~= a);
        assert(split(a, c) =~= seq![a]);
    }
}

/// The words of a text are cut at white space: those before a white character are followed by those
/// behind it, and a text without white space is one word.
pub proof fn law_words_are_cut_at_white_space(a: Seq<char>, w: char, b: Seq<char>)
    requires
        is_white(w),
    ensures
        words(a + seq![w] + b) == words(a) + words(b),
        a.len() > 0 && (forall|i: int| 0 <= i < a.len() ==> !is_white(#[trigger] a[i])) ==> words(a)
            == seq![a],
        words(Seq::empty()) == Seq::<Seq<char>>::empty(),
    decreases b.len(),
{
    let s = a + seq![w] + b;
    if b.len() == 0 {
        assert(s =~= a.push(w));
        assert(s.drop_last() =~= a);
        assert(words(b) =~= Seq::<Seq<char>>::empty());
        assert(words(a) + words(b) =~= words(a));
    } else {
        let t = b.drop_last();
        law_words_are_cut_at_white_space(a, w, t);
        assert(s.drop_last() =~= a + seq![w] + t);
        assert(s.last() == b.last());
        let z = s[s.len() - 2];
        if t.len() == 0 {
            assert(z == w);
            assert(words(t) =~= Seq::<Seq<char>>::empty());
        } else {
            assert(z == t.last());
        }
        if !is_white(b.last()) {
            if t.len() == 0 || is_white(t.last()) {
                assert((words(a) + words(t)).push(seq![b.last()]) =~= words(a) + words(t).push(
                    seq![b.last()],
                ));
            } else {
                lemma_words_some(t);
                let before = words(a) + words(t);
                assert(before.last() == words(t).last());
                assert(before.drop_last() =~= words(a) + words(t).drop_last());
                assert(words(s) =~= words(a) + words(b));
            }
        }
    }
    if a.len() > 0 && (forall|i: int| 0 <= i < a.len() ==> !is_white(#[trigger] a[i])) {
        lemma_one_word(a);
    }
}

proof fn lemma_words_some(t: Seq<char>)
    requires
        t.len() > 0,
        !is_white(t.last()),
    ensures
        words(t).len() > 0,
{
}

proof fn lemma_one_word(a: Seq<char>)
    requires
        a.len() > 0,
        forall|i: int| 0 <= i < a.len() ==> !is_white(#[trigger] a[i]),
    ensures
        words(a) == seq![a],
    decreases a.len(),
{
    let t = a.drop_last();
    assert(!is_white(a[a.len() - 1]));
    if a.len() == 1 {
        assert(words(t) =~= Seq::<Seq<char>>::empty());
        assert(words(a) =~= seq![a]) by {
            assert(seq![a.last()] =~= a);
        }
    } else {
        assert forall|i: int| 0 <= i < t.len() implies !is_white(#[trigger] t[i]) by {
            assert(t[i] == a[i]);
        }
        lemma_one_word(t);
        assert(!is_white(a[a.len() - 2]));
        assert(t.push(a.last()) =~= a);
        assert(words(a) =~= seq![a]);
    }
}

/// The lines of a text: what stands before the first line feed, without one carriage return at its
/// end, and then the lines of the rest; a text without line feeds is one line, unless it is empty.
pub proof fn law_lines_end_at_line_feeds(a: Seq<char>, b: Seq<char>)
    requires
        !a.contains('\n'),
    ensures
        lines(a + seq!['\n'] + b) == seq![
            if a.len() > 0 && a.last() == '\r' {
                a.drop_last()
            } else {
                a
            },
        ] + lines(b),
        a.len() > 0 ==> lines(a) == seq![a],
        lines(Seq::empty()) == Seq::<Seq<char>>::empty(),
{
    law_text_is_split_at_each(a, b, '\n');
    lemma_split_some(b, '\n');
    let x = seq![a];
    let y = split(b, '\n');
    let f = |p: Seq<char>| without_return(p);
    let all = x + y;
    assert(all.last() == y.last());
    assert(all.drop_last() =~= x + y.drop_last());
    assert((x + y.drop_last()).map_values(f) =~= x.map_values(f) + y.drop_last().map_values(f));
    assert(x.map_values(f) =~= seq![without_return(a)]);
    assert(lines(a + seq!['\n'] + b) =~= seq![without_return(a)] + lines(b));
    assert(x.drop_last().map_values(f) =~= Seq::<Seq<char>>::empty());
    assert(x.drop_last().map_values(f).push(a) =~= seq![a]);
    let e = Seq::<char>::empty();
    lemma_split_whole(e, '\n');
    assert(seq![e].drop_last().map_values(f) =~= Seq::<Seq<char>>::empty());
}

/// Joining parts puts the separator between them: between the joined parts of two lists as well.
pub proof fn law_joined_lists_join(
    a: Seq<Seq<char>>,
    b: Seq<Seq<char>>,
    sep: Seq<char>,
    x: Seq<char>,
)
    requires
        a.len() > 0,
        b.len() > 0,
    ensures
        join(a + b, sep) == join(a, sep) + sep + join(b, sep),
        join(seq![x], sep) == x,
        join(Seq::empty(), sep) == Seq::<char>::empty(),
    decreases b.len(),
{
    let all = a + b;
    assert(all.last() == b.last());
    assert(all.drop_last() =~= a + b.drop_last());
    if b.len() == 1 {
        assert(all.drop_last() =~= a);
        assert(b.last() == b[0]);
    } else {
        law_joined_lists_join(a, b.drop_last(), sep, x);
        let p = join(a, sep);
        let q = join(b.drop_last(), sep);
        assert((p + sep + q) + sep + b.last() =~= p + sep + (q + sep + b.last()));
    }
}

/// What trimming leaves is the text between the positions `r.0` and `r.1`: before and behind it there
/// is nothing but white space, and it has none at its ends.
pub proof fn law_trimming_leaves_the_middle(s: Seq<char>) -> (r: (int, int))
    ensures
        0 <= r.0 <= r.1 <= s.len(),
        trim(s) == s.subrange(r.0, r.1),
        forall|i: int| 0 <= i < s.len() && !(r.0 <= i < r.1) ==> is_white(#[trigger] s[i]),
        trim(s).len() > 0 ==> !is_white(trim(s)[0]) && !is_white(trim(s).last()),
{
    let i = lemma_start_of(s);
    let t = trim_start(s);
    let j = lemma_end_of(t);
    assert(t.take(j) =~= s.subrange(i, i + j));
    assert forall|k: int| 0 <= k < s.len() && !(i <= k < i + j) implies is_white(
        #[trigger] s[k],
    ) by {
        if k >= i {
            assert(t[k - i] == s[k]);
        }
    }
    (i, i + j)
}

proof fn lemma_start_of(s: Seq<char>) -> (i: int)
    ensures
        0 <= i <= s.len(),
        trim_start(s) == s.subrange(i, s.len() as int),
        forall|k: int| 0 <= k < i ==> is_white(#[trigger] s[k]),
        i < s.len() ==> !is_white(s[i]),
    decreases s.len(),
{
    if s.len() > 0 && is_white(s[0]) {
        let t = s.drop_first();
        let i = lemma_start_of(t);
        assert(t.subrange(i, t.len() as int) =~= s.subrange(i + 1, s.len() as int));
        assert forall|k: int| 0 <= k < i + 1 implies is_white(#[trigger] s[k]) by {
            if k > 0 {
                assert(is_white(t[k - 1]));
            }
        }
        i + 1
    } else {
        assert(s.subrange(0, s.len() as int) =~= s);
        0
    }
}

proof fn lemma_end_of(s: Seq<char>) -> (j: int)
    ensures
        0 <= j <= s.len(),
        trim_end(s) == s.take(j),
        forall|k: int| j <= k < s.len() ==> is_white(#[trigger] s[k]),
        j > 0 ==> !is_white(s[j - 1]),
    decreases s.len(),
{
    if s.len() > 0 && is_white(s.last()) {
        let t = s.drop_last();
        let j = lemma_end_of(t);
        assert(t.take(j) =~= s.take(j));
        assert forall|k: int| j <= k < s.len() implies is_white(#[trigger] s[k]) by {
            if k < t.len() {
                assert(is_white(t[k]));
            }
        }
        if j > 0 {
            assert(t[j - 1] == s[j - 1]);
        }
        j
    } else {
        assert(s.take(s.len() as int) =~= s);
        s.len() as int
    }
}

/// The number that decimal digits stand for.
pub open spec fn digits_mean(s: Seq<char>) -> int
    decreases s.len(),
{
    if s.len() == 0 {
        0
    } else {
        10 * digits_mean(s.drop_last()) + (s.last() as u32 - '0' as u32)
    }
}

/// The decimal notation of a number is made of digits, stands for the number, and has no zero in front
/// of other digits.
pub proof fn law_decimal_notation_stands_for_its_number(n: nat)
    ensures
        decimal(n).len() > 0,
        forall|i: int| 0 <= i < decimal(n).len() ==> '0' <= #[trigger] decimal(n)[i] <= '9',
        digits_mean(decimal(n)) == n,
        decimal(n).len() > 1 ==> decimal(n)[0] != '0',
    decreases n,
{
    if n >= 10 {
        law_decimal_notation_stands_for_its_number(n / 10);
        assert(decimal(n).drop_last() =~= decimal(n / 10));
        assert(decimal(n)[0] == decimal(n / 10)[0]);
        if decimal(n / 10).len() == 1 {
            assert(digits_mean(decimal(n / 10).drop_last()) == 0);
            assert(decimal(n / 10)[0] == decimal(n / 10).last());
        }
        assert(decimal(n).last() == digit(n % 10));
        lemma_digit(n % 10);
    } else {
        assert(decimal(n).drop_last() =~= Seq::<char>::empty());
        assert(decimal(n).last() == digit(n));
        lemma_digit(n);
        assert(digits_mean(Seq::<char>::empty()) == 0);
    }
}

proof fn lemma_digit(d: nat)
    requires
        d < 10,
    ensures
        digit(d) as u32 - '0' as u32 == d,
{
    assert('0' as u32 == 48 && '1' as u32 == 49 && '2' as u32 == 50 && '3' as u32 == 51 && '4' as u32
        == 52);
    assert('5' as u32 == 53 && '6' as u32 == 54 && '7' as u32 == 55 && '8' as u32 == 56 && '9' as u32
        == 57);
}

/// The bytes of a text that follows another add up.
pub proof fn law_bytes_add_up(a: Seq<char>, b: Seq<char>)
    ensures
        text_bytes(a + b) == text_bytes(a) + text_bytes(b),
        a.len() <= text_bytes(a) <= 4 * a.len(),
    decreases a.len() + b.len(),
{
    if b.len() == 0 {
        assert(a + b =~= a);
        if a.len() > 0 {
            law_bytes_add_up(a.drop_last(), b);
        }
    } else {
        assert((a + b).drop_last() =~= a + b.drop_last());
        law_bytes_add_up(a, b.drop_last());
    }
}

/// As many characters fit as there is room for, and no more.
pub proof fn law_as_much_as_fits(s: Seq<char>, max: int)
    requires
        0 <= max,
    ensures
        fitting(s, max) <= s.len(),
        text_bytes(s.take(fitting(s, max) as int)) <= max,
        fitting(s, max) < s.len() ==> text_bytes(s.take(fitting(s, max) as int + 1)) > max,
    decreases s.len(),
{
    assert(s.take(s.len() as int) =~= s);
    if text_bytes(s) > max && s.len() > 0 {
        let t = s.drop_last();
        law_as_much_as_fits(t, max);
        let n = fitting(t, max) as int;
        assert(s.take(n) =~= t.take(n));
        if n < t.len() {
            assert(s.take(n + 1) =~= t.take(n + 1));
        } else {
            assert(s.take(n + 1) =~= s);
        }
    }
}

/// Replacing leaves a beginning in which nothing that is replaced begins.
pub proof fn lemma_replace_behind(a: Seq<char>, b: Seq<char>, p: Seq<char>, to: Seq<char>)
    requires
        p.len() > 0,
        forall|q: int| 0 <= q < a.len() ==> !#[trigger] occurs_at(a + b, p, q),
    ensures
        replace(a + b, p, to) == a + replace(b, p, to),
{
    let s = a + b;
    let k = a.len() as int;
    assert(s.subrange(k, s.len() as int) =~= b);
    lemma_find_shift(s, p, k, k);
    lemma_find_from(s, p, 0);
    lemma_find_from(s, p, k);
    lemma_find_from(b, p, 0);
    match find_from(b, p, 0) {
        Some(i) => {
            assert(find_from(s, p, 0) == Some(i + k));
            assert(s.subrange(0, i + k) =~= a + b.subrange(0, i));
            assert(s.subrange(i + k + p.len(), s.len() as int) =~= b.subrange(
                i + p.len(),
                b.len() as int,
            ));
            let rest = replace(b.subrange(i + p.len(), b.len() as int), p, to);
            assert((a + b.subrange(0, i)) + to + rest =~= a + (b.subrange(0, i) + to + rest));
        },
        None => {},
    }
}

/// Replacing replaces at the beginning.
pub proof fn lemma_replace_here(p: Seq<char>, b: Seq<char>, to: Seq<char>)
    requires
        p.len() > 0,
    ensures
        replace(p + b, p, to) == to + replace(b, p, to),
{
    let s = p + b;
    assert(s.subrange(0, p.len() as int) =~= p);
    assert(occurs_at(s, p, 0));
    assert(find_from(s, p, 0) == Some(0int));
    assert(s.subrange(p.len() as int, s.len() as int) =~= b);
    assert(s.subrange(0, 0) + to =~= to);
}

/// A text without the first character of what is replaced stays as it is; and where such texts stand
/// around one occurrence, exactly that one is replaced.
pub proof fn law_one_occurrence_is_replaced(
    a: Seq<char>,
    p: Seq<char>,
    b: Seq<char>,
    to: Seq<char>,
)
    requires
        p.len() > 0,
        !a.contains(p[0]),
        !b.contains(p[0]),
    ensures
        replace(a, p, to) == a,
        replace(a + p + b, p, to) == a + to + b,
{
    let e = Seq::<char>::empty();
    lemma_find_from(e, p, 0);
    assert(replace(e, p, to) =~= e);
    assert(a + e =~= a);
    assert(b + e =~= b);
    lemma_nothing_begins(a, e, p);
    lemma_nothing_begins(b, e, p);
    lemma_nothing_begins(a, p + b, p);
    lemma_replace_behind(a, e, p, to);
    lemma_replace_behind(b, e, p, to);
    lemma_replace_behind(a, p + b, p, to);
    lemma_replace_here(p, b, to);
    assert(a + (p + b) =~= a + p + b);
    assert(a + (to + b) =~= a + to + b);
}

/// Nothing begins within a text that its first character is not in.
pub proof fn lemma_nothing_begins(a: Seq<char>, b: Seq<char>, p: Seq<char>)
    requires
        p.len() > 0,
        !a.contains(p[0]),
    ensures
        forall|q: int| 0 <= q < a.len() ==> !#[trigger] occurs_at(a + b, p, q),
{
    assert forall|q: int| 0 <= q < a.len() implies !#[trigger] occurs_at(a + b, p, q) by {
        if occurs_at(a + b, p, q) {
            assert((a + b).subrange(q, q + p.len())[0] == a[q]);
            assert(a.contains(a[q]));
        }
    }
}

} // verus!
