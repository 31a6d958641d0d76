//! The HTTP interface: tokens, addresses and the status of errors.

use vstd::prelude::*;
use crate::error::AppError;
use crate::hooks::opt_slice;
use crate::ids::{is_hex, random_simple_uuid};
use crate::paths::{join_path, joined_path, parent, parent_of};
use crate::text::{
    add_to, char_from, chars_of, concat, is_white, law_text_is_split_at_each, no_strings, opt_str, same, split, split_on, starts_with,
    string_of, strs, trim, trim_end, trim_start, trimmed,
};

verus! {

/// The value of a pair `name=value` with a name, where it is not empty.
pub open spec fn pair_value(s: Seq<char>, name: Seq<char>) -> Option<Seq<char>> {
    match char_from(s, '=', 0) {
        Some(i) => if s.take(i) == name && i + 1 < s.len() {
            Some(s.subrange(i + 1, s.len() as int))
        } else {
            None
        },
        None => None,
    }
}

/// The first value under a name in a list of pairs.
pub open spec fn first_value(parts: Seq<Seq<char>>, name: Seq<char>) -> Option<Seq<char>>
    decreases parts.len(),
{
    if parts.len() == 0 {
        None
    } else {
        match pair_value(parts[0], name) {
            Some(v) => Some(v),
            None => first_value(parts.drop_first(), name),
        }
    }
}

/// The token of an authorization header.
pub open spec fn bearer_of(header: Option<Seq<char>>) -> Option<Seq<char>> {
    match header {
        Some(h) => if "Bearer "@.is_prefix_of(h) && trim(h.subrange(7, h.len() as int)).len() > 0 {
            Some(trim(h.subrange(7, h.len() as int)))
        } else {
            None
        },
        None => None,
    }
}

/// The token of a cookie header.
pub open spec fn cookie_of(header: Option<Seq<char>>) -> Option<Seq<char>> {
    match header {
        Some(h) => first_value(
            split(h, ';').map_values(|p: Seq<char>| trim(p)),
            "echo_http_token"@,
        ),
        None => None,
    }
}

/// The token of a query.
pub open spec fn query_of(query: Option<Seq<char>>) -> Option<Seq<char>> {
    match query {
        Some(q) => first_value(split(q, '&'), "token"@),
        None => None,
    }
}

/// The token of a request: that of the authorization, else that of a cookie, else that of the
/// query.
pub open spec fn token_of(
    authorization: Option<Seq<char>>,
    cookie: Option<Seq<char>>,
    query: Option<Seq<char>>,
) -> Option<Seq<char>> {
    match bearer_of(authorization) {
        Some(t) => Some(t),
        None => match cookie_of(cookie) {
            Some(t) => Some(t),
            None => query_of(query),
        },
    }
}

fn value_of(s: &str, name: &str) -> (r: Option<String>)
    ensures
        opt_str(r) == pair_value(s@, name@),
{
    let v = chars_of(s);
    let mut i: usize = 0;
    while i < v.len()
        invariant
            v@ == s@,
            i <= v.len(),
            char_from(s@, '=', 0) == char_from(s@, '=', i as int),
        decreases v.len() - i,
    {
        if v[i] == '=' {
            let key = string_of(&v, 0, i);
            assert(key@ =~= s@.take(i as int));
            if same(key.as_str(), name) && i + 1 < v.len() {
                return Some(string_of(&v, i + 1, v.len()));
            }
            return None;
        }
        i = i + 1;
    }
    None
}

fn first_of(parts: &Vec<String>, name: &str) -> (r: Option<String>)
    ensures
        opt_str(r) == first_value(strs(parts@), name@),
{
    let ghost all = strs(parts@);
    let mut i: usize = 0;
    assert(all.subrange(0, all.len() as int) =~= all);
    while i < parts.len()
        invariant
            all == strs(parts@),
            i <= parts.len(),
            first_value(all, name@) == first_value(
                all.subrange(i as int, all.len() as int),
                name@,
            ),
        decreases parts.len() - i,
    {
        let ghost t = all.subrange(i as int, all.len() as int);
        assert(t[0] == parts@[i as int]@);
        assert(t.drop_first() =~= all.subrange(i + 1, all.len() as int));
        if let Some(v) = value_of(parts[i].as_str(), name) {
            return Some(v);
        }
        i = i + 1;
    }
    None
}

/// The token of an authorization header.
pub fn bearer_token(header: Option<&str>) -> (r: Option<String>)
    ensures
        opt_str(r) == bearer_of(opt_slice(header)),
{
    match header {
        Some(h) => {
            if !starts_with(h, "Bearer ") {
                return None;
            }
            proof {
                reveal_strlit("Bearer ");
            }
            let v = chars_of(h);
            let rest = string_of(&v, 7, v.len());
            let t = trimmed(rest.as_str());
            if t.as_str().is_empty() {
                None
            } else {
                Some(t)
            }
        },
        None => None,
    }
}

/// The token of a cookie header.
pub fn cookie_token(header: Option<&str>) -> (r: Option<String>)
    ensures
        opt_str(r) == cookie_of(opt_slice(header)),
{
    match header {
        Some(h) => {
            let parts = split_on(h, ';');
            let ghost all = split(h@, ';');
            let mut bare = no_strings();
            let mut i: usize = 0;
            while i < parts.len()
                invariant
                    all == strs(parts@),
                    i <= parts.len(),
                    strs(bare@).len() == i,
                    forall|k: int| 0 <= k < i ==> #[trigger] strs(bare@)[k] == trim(all[k]),
                decreases parts.len() - i,
            {
                let ghost before = strs(bare@);
                assert(all[i as int] == parts@[i as int]@);
                add_to(&mut bare, trimmed(parts[i].as_str()).as_str());
                i = i + 1;
            }
            assert(strs(bare@) =~= all.map_values(|p: Seq<char>| trim(p)));
            first_of(&bare, "echo_http_token")
        },
        None => None,
    }
}

/// The token of a query.
pub fn query_token(query: Option<&str>) -> (r: Option<String>)
    ensures
        opt_str(r) == query_of(opt_slice(query)),
{
    match query {
        Some(q) => {
            let parts = split_on(q, '&');
            first_of(&parts, "token")
        },
        None => None,
    }
}

/// The token of a request.
pub fn request_token(authorization: Option<&str>, cookie: Option<&str>, query: Option<&str>) -> (r:
    Option<String>)
    ensures
        opt_str(r) == token_of(opt_slice(authorization), opt_slice(cookie), opt_slice(query)),
{
    if let Some(t) = bearer_token(authorization) {
        return Some(t);
    }
    if let Some(t) = cookie_token(cookie) {
        return Some(t);
    }
    query_token(query)
}

/// Whether a request carries the token of the server.
pub fn is_authorized(
    token: &str,
    authorization: Option<&str>,
    cookie: Option<&str>,
    query: Option<&str>,
) -> (r: bool)
    ensures
        r == (token_of(opt_slice(authorization), opt_slice(cookie), opt_slice(query)) == Some(
            token@,
        )),
{
    match request_token(authorization, cookie, query) {
        Some(t) => same(t.as_str(), token),
        None => false,
    }
}

/// The HTTP status of an error.
pub fn status_code(e: &AppError) -> (r: u16)
    ensures
        r == match e {
            AppError::SessionNotFound(_) => 404u16,
            AppError::Config(_) => 400u16,
            _ => 500u16,
        },
{
    match e {
        AppError::SessionNotFound(_) => 404,
        AppError::Config(_) => 400,
        _ => 500,
    }
}

// ── Settings ────────────────────────────────────────────────────────────────────────────────

/// Whether a setting is there and not blank.
pub open spec fn is_given(setting: Option<Seq<char>>) -> bool {
    setting is Some && trim(setting->0).len() > 0
}

/// The token of the server: the configured one, or a new one.
pub fn server_token(configured: Option<&str>) -> (r: String)
    ensures
        if is_given(opt_slice(configured)) {
            r@ == opt_slice(configured)->0
        } else {
            r@.len() == 32 && forall|i: int| 0 <= i < 32 ==> is_hex(#[trigger] r@[i])
        },
{
    if let Some(t) = configured {
        if !trimmed(t).as_str().is_empty() {
            return t.to_owned();
        }
    }
    random_simple_uuid()
}

/// The directory of the data of the server.
pub fn data_directory(configured: Option<&str>, current: &str) -> (r: String)
    ensures
        r@ == if is_given(opt_slice(configured)) {
            opt_slice(configured)->0
        } else {
            joined_path(current@, ".echo-http-server"@)
        },
{
    if let Some(p) = configured {
        if !trimmed(p).as_str().is_empty() {
            return p.to_owned();
        }
    }
    join_path(current, ".echo-http-server")
}

/// The directory of the web pages.
pub fn web_directory(configured: Option<&str>, current: &str) -> (r: String)
    ensures
        r@ == if is_given(opt_slice(configured)) {
            joined_path(current@, opt_slice(configured)->0)
        } else {
            joined_path(joined_path(joined_path(current@, "apps"@), "echo-tauri"@), "dist"@)
        },
{
    if let Some(p) = configured {
        if !trimmed(p).as_str().is_empty() {
            return join_path(current, p);
        }
    }
    let apps = join_path(current, "apps");
    let tauri = join_path(apps.as_str(), "echo-tauri");
    join_path(tauri.as_str(), "dist")
}

/// What stands behind the last colon of an address.
pub open spec fn port_of(bind: Seq<char>) -> Option<Seq<char>>
    decreases bind.len(),
{
    if bind.len() == 0 {
        None
    } else if bind.last() == ':' {
        Some(Seq::empty())
    } else {
        match port_of(bind.drop_last()) {
            Some(p) => Some(p.push(bind.last())),
            None => None,
        }
    }
}

proof fn lemma_port(bind: Seq<char>, i: int)
    requires
        0 <= i <= bind.len(),
        forall|k: int| i <= k < bind.len() ==> #[trigger] bind[k] != ':',
        i > 0 ==> bind[i - 1] == ':',
    ensures
        port_of(bind) == if i > 0 {
            Some(bind.subrange(i, bind.len() as int))
        } else {
            None::<Seq<char>>
        },
    decreases bind.len(),
{
    if bind.len() > 0 {
        if i == bind.len() {
            assert(bind.subrange(i, bind.len() as int) =~= Seq::<char>::empty());
        } else {
            let t = bind.drop_last();
            assert forall|k: int| i <= k < t.len() implies #[trigger] t[k] != ':' by {
                assert(bind[k] != ':');
            }
            lemma_port(t, i);
            assert(bind[bind.len() - 1] != ':');
            if i > 0 {
                assert(t.subrange(i, t.len() as int).push(bind.last()) =~= bind.subrange(
                    i,
                    bind.len() as int,
                ));
            }
        }
    }
}

/// The port of the web pages: the configured one, that of the address of the server, or 4399.
pub fn web_port(configured: Option<&str>, bind: Option<&str>) -> (r: String)
    ensures
        r@ == match opt_slice(configured) {
            Some(p) => p,
            None => match opt_slice(bind) {
                Some(b) => match port_of(b) {
                    Some(p) => p,
                    None => "4399"@,
                },
                None => "4399"@,
            },
        },
{
    if let Some(p) = configured {
        return p.to_owned();
    }
    if let Some(b) = bind {
        let v = chars_of(b);
        let mut i: usize = v.len();
        while i > 0 && v[i - 1] != ':'
            invariant
                v@ == b@,
                i <= v.len(),
                forall|k: int| i <= k < v.len() ==> #[trigger] b@[k] != ':',
            decreases i,
        {
            assert(b@[i - 1] == v@[i - 1]);
            i = i - 1;
        }
        proof {
            lemma_port(b@, i as int);
        }
        if i > 0 {
            return string_of(&v, i, v.len());
        }
    }
    "4399".to_owned()
}

/// The address of the web pages.
pub fn frontend_url(host: &str, port: &str, token: &str) -> (r: String)
    ensures
        r@ == "http://"@ + host@ + ":"@ + port@ + "?token="@ + token@,
{
    let mut r = concat("http://", host);
    r.push_str(":");
    r.push_str(port);
    r.push_str("?token=");
    r.push_str(token);
    r
}

/// A directory and the ones above it, `n` at most.
pub open spec fn dirs_upward(dir: Seq<char>, n: nat) -> Seq<Seq<char>>
    decreases n,
{
    if n == 0 {
        Seq::empty()
    } else {
        match parent(dir) {
            Some(p) => seq![dir] + dirs_upward(p, (n - 1) as nat),
            None => seq![dir],
        }
    }
}

/// The directories in which the models are looked for: the current one and those above it, eight at
/// most.
pub fn workspace_candidates(current: &str) -> (r: Vec<String>)
    ensures
        strs(r@) == dirs_upward(current@, 8),
{
    let mut out = no_strings();
    let mut dir = current.to_owned();
    let mut left: usize = 8;
    assert(strs(out@) + dirs_upward(dir@, 8) =~= dirs_upward(dir@, 8));
    while left > 0
        invariant
            left <= 8,
            dirs_upward(current@, 8) == strs(out@) + dirs_upward(dir@, left as nat),
        decreases left,
    {
        let ghost before = strs(out@);
        let ghost d = dir@;
        add_to(&mut out, dir.as_str());
        match parent_of(dir.as_str()) {
            Some(p) => {
                assert(before + (seq![d] + dirs_upward(p@, (left - 1) as nat)) =~= strs(out@)
                    + dirs_upward(p@, (left - 1) as nat));
                dir = p;
            },
            None => {
                assert(before + seq![d] =~= strs(out@));
                return out;
            },
        }
        left = left - 1;
    }
    assert(strs(out@) + Seq::<Seq<char>>::empty() =~= strs(out@));
    out
}

// ── Laws ────────────────────────────────────────────────────────────────────────────────────

/// A request without a token, and one whose first token is another one, is not let in: no token in
/// a later place makes up for it.
pub proof fn law_first_token_decides(
    token: Seq<char>,
    authorization: Option<Seq<char>>,
    cookie: Option<Seq<char>>,
    query: Option<Seq<char>>,
)
    ensures
        bearer_of(authorization) is Some && bearer_of(authorization) != Some(token) ==> token_of(
            authorization,
            cookie,
            query,
        ) != Some(token),
        bearer_of(authorization) is None && cookie_of(cookie) is Some && cookie_of(cookie) != Some(
            token,
        ) ==> token_of(authorization, cookie, query) != Some(token),
        token_of(None, None, None) is None,
{
}

/// The token of an authorization header is what stands behind the word `Bearer`, without surrounding
/// white space; a header of another kind has none.
pub proof fn law_bearer_token_is_read(token: Seq<char>, other: Seq<char>)
    requires
        token.len() > 0,
        !is_white(token[0]) && !is_white(token.last()),
        !"Bearer "@.is_prefix_of(other),
    ensures
        bearer_of(Some("Bearer "@ + token)) == Some(token),
        bearer_of(Some(other)) is None,
{
    reveal_strlit("Bearer ");
    let h = "Bearer "@ + token;
    assert("Bearer "@ =~= h.take(7));
    assert(h.subrange(7, h.len() as int) =~= token);
    assert(trim_start(token) == token);
    assert(trim_end(token) == token);
}

proof fn lemma_pair(name: Seq<char>, value: Seq<char>)
    requires
        !name.contains('='),
        value.len() > 0,
    ensures
        pair_value(name + seq!['='] + value, name) == Some(value),
{
    let s = name + seq!['='] + value;
    let n = name.len() as int;
    assert forall|k: int| 0 <= k < n implies s[k] != '=' by {
        assert(name.contains(name[k]));
    }
    lemma_sign(s, 0, n);
    assert(s.take(n) =~= name);
    assert(s.subrange(n + 1, s.len() as int) =~= value);
}

proof fn lemma_sign(s: Seq<char>, from: int, i: int)
    requires
        0 <= from <= i < s.len(),
        s[i] == '=',
        forall|k: int| from <= k < i ==> s[k] != '=',
    ensures
        char_from(s, '=', from) == Some(i),
    decreases i - from,
{
    if from < i {
        lemma_sign(s, from + 1, i);
    }
}

proof fn lemma_first_of_two(a: Seq<Seq<char>>, b: Seq<Seq<char>>, name: Seq<char>)
    ensures
        first_value(a + b, name) == match first_value(a, name) {
            Some(v) => Some(v),
            None => first_value(b, name),
        },
    decreases a.len(),
{
    if a.len() == 0 {
        assert(a + b =~= b);
    } else {
        assert((a + b).drop_first() =~= a.drop_first() + b);
        lemma_first_of_two(a.drop_first(), b, name);
    }
}

/// The token of a query is the value of its first pair with the name and a value that is not empty: the
/// pairs before a separator count before those behind it.
pub proof fn law_query_token_is_read(a: Seq<char>, b: Seq<char>, value: Seq<char>)
    requires
        value.len() > 0,
        !value.contains('&'),
    ensures
        query_of(Some("token="@ + value)) == Some(value),
        query_of(Some(a + seq!['&'] + b)) == if query_of(Some(a)) is Some {
            query_of(Some(a))
        } else {
            query_of(Some(b))
        },
        query_of(None) is None,
{
    reveal_strlit("token");
    reveal_strlit("token=");
    law_text_is_split_at_each(a, b, '&');
    lemma_first_of_two(split(a, '&'), split(b, '&'), "token"@);
    let s = "token="@ + value;
    assert(s =~= "token"@ + seq!['='] + value);
    lemma_pair("token"@, value);
    assert forall|i: int| 0 <= i < s.len() implies s[i] != '&' by {
        if i >= 6 {
            assert(value.contains(value[i - 6]));
        }
    }
    law_text_is_split_at_each(s, Seq::empty(), '&');
    assert(split(s, '&') == seq![s]);
}

/// The token of a cookie header is the value of its first cookie with the name and a value that is not
/// empty: the cookies before a separator count before those behind it.
pub proof fn law_cookie_token_is_read(a: Seq<char>, b: Seq<char>, value: Seq<char>)
    requires
        value.len() > 0,
        !value.contains(';'),
        !is_white(value.last()),
    ensures
        cookie_of(Some("echo_http_token="@ + value)) == Some(value),
        cookie_of(Some(a + seq![';'] + b)) == if cookie_of(Some(a)) is Some {
            cookie_of(Some(a))
        } else {
            cookie_of(Some(b))
        },
        cookie_of(None) is None,
{
    reveal_strlit("echo_http_token");
    reveal_strlit("echo_http_token=");
    let f = |p: Seq<char>| trim(p);
    law_text_is_split_at_each(a, b, ';');
    assert((split(a, ';') + split(b, ';')).map_values(f) =~= split(a, ';').map_values(f) + split(
        b,
        ';',
    ).map_values(f));
    lemma_first_of_two(
        split(a, ';').map_values(f),
        split(b, ';').map_values(f),
        "echo_http_token"@,
    );
    let s = "echo_http_token="@ + value;
    assert(s =~= "echo_http_token"@ + seq!['='] + value);
    lemma_pair("echo_http_token"@, value);
    assert forall|i: int| 0 <= i < s.len() implies s[i] != ';' by {
        if i >= 16 {
            assert(value.contains(value[i - 16]));
        }
    }
    law_text_is_split_at_each(s, Seq::empty(), ';');
    assert(split(s, ';') == seq![s]);
    assert(s[0] == 'e' && !is_white('e'));
    assert(s.last() == value.last());
    assert(trim_start(s) == s);
    assert(trim_end(s) == s);
    assert(seq![s].map_values(f) =~= seq![s]);
}

/// The token of a request is that of the authorization; without one it is that of the cookies, and
/// without that the one of the query.
pub proof fn law_token_is_looked_for_in_order(
    authorization: Option<Seq<char>>,
    cookie: Option<Seq<char>>,
    query: Option<Seq<char>>,
)
    ensures
        token_of(authorization, cookie, query) == if bearer_of(authorization) is Some {
            bearer_of(authorization)
        } else if cookie_of(cookie) is Some {
            cookie_of(cookie)
        } else {
            query_of(query)
        },
{
}

/// The port of an address is what stands behind its last colon.
pub proof fn law_port_stands_behind_the_colon(host: Seq<char>, port: Seq<char>)
    requires
        !port.contains(':'),
    ensures
        port_of(host + seq![':'] + port) == Some(port),
        port_of(port) is None,
    decreases port.len(),
{
    let s = host + seq![':'] + port;
    if port.len() == 0 {
        assert(s.last() == ':');
        assert(port =~= Seq::<char>::empty());
    } else {
        let t = port.drop_last();
        assert(port.contains(port.last()));
        assert forall|i: int| 0 <= i < t.len() implies t[i] != ':' by {
            assert(port.contains(port[i]));
        }
        law_port_stands_behind_the_colon(host, t);
        assert(s.drop_last() =~= host + seq![':'] + t);
        assert(t.push(port.last()) =~= port);
    }
}

/// The directories that are looked through begin with the given one, and each is followed by its
/// parent, as long as there is one and the number allows it.
pub proof fn law_directories_go_upward(dir: Seq<char>, n: nat, i: int)
    requires
        n > 0,
    ensures
        1 <= dirs_upward(dir, n).len() <= n,
        dirs_upward(dir, n)[0] == dir,
        0 <= i < dirs_upward(dir, n).len() - 1 ==> parent(dirs_upward(dir, n)[i]) == Some(
            dirs_upward(dir, n)[i + 1],
        ),
        dirs_upward(dir, n).len() < n ==> parent(dirs_upward(dir, n).last()) is None,
    decreases n,
{
    if let Some(p) = parent(dir) {
        if n > 1 {
            law_directories_go_upward(p, (n - 1) as nat, i - 1);
            let rest = dirs_upward(p, (n - 1) as nat);
            assert(dirs_upward(dir, n) =~= seq![dir] + rest);
        } else {
            assert(dirs_upward(p, 0) =~= Seq::<Seq<char>>::empty());
            assert(dirs_upward(dir, n) =~= seq![dir]);
        }
    }
}

} // verus!
