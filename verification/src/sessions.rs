//! Sessions: what is known of each, how the list is kept, and how it is changed.

use vstd::prelude::*;
use crate::error::AppError;
use crate::ids::{is_uuid_text, random_uuid};
use crate::lists::{copy_opt, reversed};
use crate::paths::{join_path, joined_path, parent, parent_of};
use crate::table::{in_order, law_names_are_listed_in_order, Table};
use crate::text::{opt_str, same, strs, trim, trimmed};

verus! {

/// What is known of a session.
pub struct SessionMeta {
    pub id: String,
    pub title: String,
    pub model: String,
    pub system_prompt: String,
    pub work_dir: Option<String>,
    pub created_at_ms: u128,
    pub updated_at_ms: u128,
}

/// What a session is created from.
pub struct CreateSessionInput {
    pub title: String,
    pub model: String,
    pub system_prompt: String,
    pub max_tokens: Option<usize>,
    pub work_dir: Option<String>,
}

/// The model that a session is to use.
pub struct UpdateSessionModelInput {
    pub model: String,
}

/// The conversation that a session is stored as.
pub struct NewConversation {
    pub conversation_id: String,
    pub user_id: String,
    pub agent_type: Option<String>,
    pub title: Option<String>,
}

/// Where the sessions are stored.
pub struct AgentRegistryPaths {
    pub sessions_path: String,
    pub conversations_path: String,
}

impl AgentRegistryPaths {
    /// The places below a directory.
    pub fn from_app_data_dir(dir: &str) -> (r: AgentRegistryPaths)
        ensures
            r.sessions_path@ == joined_path(dir@, "sessions.json"@),
            r.conversations_path@ == joined_path(dir@, "conversations.sqlite"@),
    {
        AgentRegistryPaths {
            sessions_path: join_path(dir, "sessions.json"),
            conversations_path: join_path(dir, "conversations.sqlite"),
        }
    }

    /// The directory that holds the files.
    pub fn root_dir(&self) -> (r: Option<String>)
        ensures
            opt_str(r) == parent(self.sessions_path@),
    {
        parent_of(self.sessions_path.as_str())
    }
}

impl SessionMeta {
    /// The same.
    pub fn copy(&self) -> (r: SessionMeta)
        ensures
            r == *self,
    {
        SessionMeta {
            id: self.id.clone(),
            title: self.title.clone(),
            model: self.model.clone(),
            system_prompt: self.system_prompt.clone(),
            work_dir: copy_opt(&self.work_dir),
            created_at_ms: self.created_at_ms,
            updated_at_ms: self.updated_at_ms,
        }
    }
}

// ── The stored list ─────────────────────────────────────────────────────────────────────────

/// The sessions in order with one more put behind all that were not updated before it.
pub open spec fn placed(metas: Seq<SessionMeta>, m: SessionMeta) -> Seq<SessionMeta>
    decreases metas.len(),
{
    if metas.len() == 0 || m.updated_at_ms <= metas.last().updated_at_ms {
        metas.push(m)
    } else {
        placed(metas.drop_last(), m).push(metas.last())
    }
}

/// The sessions from the one that was updated last; those of one time stay in their order.
pub open spec fn by_recency(metas: Seq<SessionMeta>) -> Seq<SessionMeta>
    decreases metas.len(),
{
    if metas.len() == 0 {
        Seq::empty()
    } else {
        placed(by_recency(metas.drop_last()), metas.last())
    }
}

/// The position of the first session with an identifier, at or behind `from`.
pub open spec fn first_with(metas: Seq<SessionMeta>, id: Seq<char>, from: int) -> Option<int>
    decreases metas.len() - from,
{
    if from < 0 || from >= metas.len() {
        None
    } else if metas[from].id@ == id {
        Some(from)
    } else {
        first_with(metas, id, from + 1)
    }
}

/// The list with a session in place of the first one with its identifier, or at its end.
pub open spec fn replaced_or_added(metas: Seq<SessionMeta>, m: SessionMeta) -> Seq<SessionMeta> {
    match first_with(metas, m.id@, 0) {
        Some(i) => metas.update(i, m),
        None => metas.push(m),
    }
}

/// The list without the sessions with an identifier.
pub open spec fn without(metas: Seq<SessionMeta>, id: Seq<char>) -> Seq<SessionMeta>
    decreases metas.len(),
{
    if metas.len() == 0 {
        Seq::empty()
    } else if metas.last().id@ == id {
        without(metas.drop_last(), id)
    } else {
        without(metas.drop_last(), id).push(metas.last())
    }
}

proof fn lemma_placed(metas: Seq<SessionMeta>, m: SessionMeta, pos: int)
    requires
        0 <= pos <= metas.len(),
        pos > 0 ==> m.updated_at_ms <= metas[pos - 1].updated_at_ms,
        forall|k: int|
            pos <= k < metas.len() ==> m.updated_at_ms > (#[trigger] metas[k]).updated_at_ms,
    ensures
        placed(metas, m) == metas.insert(pos, m),
    decreases metas.len(),
{
    if metas.len() == 0 || pos == metas.len() {
        assert(metas.insert(pos, m) =~= metas.push(m));
    } else {
        let front = metas.drop_last();
        lemma_placed(front, m, pos);
        assert(metas.insert(pos, m) =~= front.insert(pos, m).push(metas.last()));
    }
}

/// The sessions from the one that was updated last.
pub fn sort_session_metas(metas: Vec<SessionMeta>) -> (r: Vec<SessionMeta>)
    ensures
        r@ == by_recency(metas@),
{
    let ghost all = metas@;
    let n: usize = metas.len();
    let mut rest = reversed(metas);
    let mut out: Vec<SessionMeta> = Vec::new();
    let mut i: usize = 0;
    assert(all.take(0) =~= Seq::<SessionMeta>::empty());
    while i < n
        invariant
            n == all.len(),
            i <= n,
            rest@.len() == n - i,
            forall|k: int| 0 <= k < rest@.len() ==> #[trigger] rest@[k] == all[n - 1 - k],
            out@ == by_recency(all.take(i as int)),
        decreases n - i,
    {
        if let Some(m) = rest.pop() {
            assert(m == all[i as int]);
            let mut pos: usize = out.len();
            while pos > 0 && out[pos - 1].updated_at_ms < m.updated_at_ms
                invariant
                    pos <= out.len(),
                    forall|k: int|
                        pos <= k < out@.len() ==> m.updated_at_ms > (
                        #[trigger] out@[k]).updated_at_ms,
                decreases pos,
            {
                pos = pos - 1;
            }
            proof {
                lemma_placed(out@, m, pos as int);
                assert(all.take(i + 1).drop_last() =~= all.take(i as int));
            }
            out.insert(pos, m);
        }
        i = i + 1;
    }
    assert(all.take(all.len() as int) =~= all);
    out
}

/// The stored list after a session is created or changed.
pub fn upsert(metas: Vec<SessionMeta>, meta: SessionMeta) -> (r: Vec<SessionMeta>)
    ensures
        r@ == by_recency(replaced_or_added(metas@, meta)),
{
    let mut list = metas;
    let ghost all = list@;
    let mut i: usize = 0;
    while i < list.len()
        invariant
            list@ == all,
            all == metas@,
            i <= list.len(),
            first_with(all, meta.id@, 0) == first_with(all, meta.id@, i as int),
        decreases list.len() - i,
    {
        if same(list[i].id.as_str(), meta.id.as_str()) {
            list.set(i, meta);
            return sort_session_metas(list);
        }
        i = i + 1;
    }
    list.push(meta);
    sort_session_metas(list)
}

/// The stored list after a session is deleted.
pub fn delete_meta(metas: Vec<SessionMeta>, session_id: &str) -> (r: Vec<SessionMeta>)
    ensures
        r@ == without(metas@, session_id@),
{
    let ghost all = metas@;
    let n: usize = metas.len();
    let mut rest = reversed(metas);
    let mut out: Vec<SessionMeta> = Vec::new();
    let mut i: usize = 0;
    assert(all.take(0) =~= Seq::<SessionMeta>::empty());
    while i < n
        invariant
            n == all.len(),
            i <= n,
            rest@.len() == n - i,
            forall|k: int| 0 <= k < rest@.len() ==> #[trigger] rest@[k] == all[n - 1 - k],
            out@ == without(all.take(i as int), session_id@),
        decreases n - i,
    {
        if let Some(m) = rest.pop() {
            assert(m == all[i as int]);
            assert(all.take(i + 1).drop_last() =~= all.take(i as int));
            if !same(m.id.as_str(), session_id) {
                out.push(m);
            }
        }
        i = i + 1;
    }
    assert(all.take(all.len() as int) =~= all);
    out
}

// ── The sessions of the process ─────────────────────────────────────────────────────────────

/// The sessions by identifier.
pub struct AgentRegistry {
    sessions: Table<SessionMeta>,
}

/// A session that is created now.
pub fn new_session(input: CreateSessionInput, now_ms: u128) -> (r: SessionMeta)
    ensures
        is_uuid_text(r.id@),
        r.title == input.title,
        r.model == input.model,
        r.system_prompt == input.system_prompt,
        r.work_dir == input.work_dir,
        r.created_at_ms == now_ms,
        r.updated_at_ms == now_ms,
{
    SessionMeta {
        id: random_uuid(),
        title: input.title,
        model: input.model,
        system_prompt: input.system_prompt,
        work_dir: input.work_dir,
        created_at_ms: now_ms,
        updated_at_ms: now_ms,
    }
}

/// Whether an error says that a session is not known.
pub open spec fn unknown_session(e: AppError, id: Seq<char>) -> bool {
    e matches AppError::SessionNotFound(s) && s@ == id
}

/// The sessions of a list by identifier; of two with one identifier the later one counts.
pub open spec fn indexed(metas: Seq<SessionMeta>) -> Map<Seq<char>, SessionMeta>
    decreases metas.len(),
{
    if metas.len() == 0 {
        Map::empty()
    } else {
        indexed(metas.drop_last()).insert(metas.last().id@, metas.last())
    }
}

impl AgentRegistry {
    #[verifier::type_invariant]
    spec fn by_own_id(&self) -> bool {
        forall|k: Seq<char>| #[trigger]
            self.sessions@.contains_key(k) ==> self.sessions@[k].id@ == k
    }

    /// The sessions by identifier.
    pub closed spec fn view(&self) -> Map<Seq<char>, SessionMeta> {
        self.sessions@
    }

    /// The sessions of a stored list.
    pub fn new(metas: Vec<SessionMeta>) -> (r: AgentRegistry)
        ensures
            r@ == indexed(metas@),
    {
        let ghost all = metas@;
        let n: usize = metas.len();
        let mut rest = reversed(metas);
        let mut r = AgentRegistry { sessions: Table::new() };
        let mut i: usize = 0;
        assert(all.take(0) =~= Seq::<SessionMeta>::empty());
        while i < n
            invariant
                n == all.len(),
                i <= n,
                rest@.len() == n - i,
                forall|k: int| 0 <= k < rest@.len() ==> #[trigger] rest@[k] == all[n - 1 - k],
                r@ == indexed(all.take(i as int)),
            decreases n - i,
        {
            if let Some(m) = rest.pop() {
                assert(m == all[i as int]);
                assert(all.take(i + 1).drop_last() =~= all.take(i as int));
                r.insert(m);
            }
            i = i + 1;
        }
        assert(all.take(all.len() as int) =~= all);
        r
    }

    /// Sets a session.
    pub fn insert(&mut self, meta: SessionMeta)
        ensures
            final(self)@ == old(self)@.insert(meta.id@, meta),
    {
        proof {
            use_type_invariant(&*self);
        }
        let id = meta.id.clone();
        let mut t: Table<SessionMeta> = Table::new();
        core::mem::swap(&mut self.sessions, &mut t);
        let _ = t.insert(id, meta);
        self.sessions = t;
    }

    /// A session.
    pub fn get(&self, session_id: &str) -> (r: Result<&SessionMeta, AppError>)
        ensures
            match r {
                Ok(m) => self@.contains_key(session_id@) && *m == self@[session_id@] && m.id@
                    == session_id@,
                Err(e) => !self@.contains_key(session_id@) && unknown_session(e, session_id@),
            },
    {
        proof {
            use_type_invariant(self);
        }
        match self.sessions.get(session_id) {
            Some(m) => Ok(m),
            None => Err(AppError::SessionNotFound(session_id.to_owned())),
        }
    }

    /// The session as it is with another model; the registry stays as it is.
    pub fn update_model(&self, session_id: &str, model: &str, now_ms: u128) -> (r: Result<
        SessionMeta,
        AppError,
    >)
        ensures
            match r {
                Ok(m) => {
                    &&& trim(model@).len() > 0
                    &&& self@.contains_key(session_id@)
                    &&& m.model@ == trim(model@)
                    &&& m == (SessionMeta {
                        model: m.model,
                        updated_at_ms: now_ms,
                        ..self@[session_id@]
                    })
                },
                Err(e) => if trim(model@).len() == 0 {
                    e matches AppError::Config(t) && t@ == "model 不能为空"@
                } else {
                    !self@.contains_key(session_id@) && unknown_session(e, session_id@)
                },
            },
    {
        let name = trimmed(model);
        if name.as_str().is_empty() {
            return Err(AppError::Config("model 不能为空".to_owned()));
        }
        match self.get(session_id) {
            Ok(m) => {
                let mut c = m.copy();
                c.model = name;
                c.updated_at_ms = now_ms;
                Ok(c)
            },
            Err(e) => Err(e),
        }
    }

    /// The sessions from the one that was updated last.
    pub fn list(&self) -> (r: Vec<SessionMeta>)
        ensures
            r@ == by_recency(in_order(self@.dom()).map_values(|k: Seq<char>| self@[k])),
            r@.len() == self@.dom().len(),
    {
        let n: usize = self.sessions.len();
        proof {
            law_names_are_listed_in_order(self@.dom());
        }
        let ids = self.sessions.sorted_keys();
        let ghost all = in_order(self@.dom());
        let mut out: Vec<SessionMeta> = Vec::new();
        let mut i: usize = 0;
        while i < ids.len()
            invariant
                all == strs(ids@),
                all.to_set() == self@.dom(),
                i <= ids.len(),
                out.len() == i,
                forall|k: int| 0 <= k < i ==> #[trigger] out@[k] == self@[all[k]],
            decreases ids.len() - i,
        {
            assert(all[i as int] == ids@[i as int]@);
            assert(all.to_set().contains(all[i as int]));
            if let Some(m) = self.sessions.get(ids[i].as_str()) {
                out.push(m.copy());
            }
            i = i + 1;
        }
        assert(out@ =~= all.map_values(|k: Seq<char>| self@[k]));
        proof {
            law_sessions_are_sorted(out@);
            vstd::seq_lib::to_multiset_len(out@);
            vstd::seq_lib::to_multiset_len(by_recency(out@));
        }
        sort_session_metas(out)
    }

    /// Removes a session.
    pub fn delete(&mut self, session_id: &str) -> (r: Result<(), AppError>)
        ensures
            final(self)@ == old(self)@.remove(session_id@),
            match r {
                Ok(_) => old(self)@.contains_key(session_id@),
                Err(e) => !old(self)@.contains_key(session_id@) && unknown_session(e, session_id@),
            },
    {
        proof {
            use_type_invariant(&*self);
        }
        let mut t: Table<SessionMeta> = Table::new();
        core::mem::swap(&mut self.sessions, &mut t);
        let m = t.remove(session_id);
        self.sessions = t;
        match m {
            Some(_) => Ok(()),
            None => Err(AppError::SessionNotFound(session_id.to_owned())),
        }
    }

    /// Notes that a session was used now, and hands it out for the store.
    pub fn touch(&mut self, session_id: &str, now_ms: u128) -> (r: Result<SessionMeta, AppError>)
        ensures
            match r {
                Ok(m) => {
                    &&& old(self)@.contains_key(session_id@)
                    &&& m == (SessionMeta { updated_at_ms: now_ms, ..old(self)@[session_id@] })
                    &&& final(self)@ == old(self)@.insert(session_id@, m)
                },
                Err(e) => {
                    &&& !old(self)@.contains_key(session_id@)
                    &&& final(self)@ == old(self)@
                    &&& unknown_session(e, session_id@)
                },
            },
    {
        proof {
            use_type_invariant(&*self);
        }
        let mut c = match self.get(session_id) {
            Ok(m) => m.copy(),
            Err(e) => {
                return Err(e);
            },
        };
        c.updated_at_ms = now_ms;
        self.insert(c.copy());
        Ok(c)
    }
}

/// The conversation that a session is stored as.
pub fn new_conversation(session_id: &str, title: &str) -> (r: NewConversation)
    ensures
        r.conversation_id@ == session_id@,
        r.user_id@ == "default"@,
        r.agent_type matches Some(t) && t@ == "react"@,
        r.title matches Some(t) && t@ == title@,
{
    NewConversation {
        conversation_id: session_id.to_owned(),
        user_id: "default".to_owned(),
        agent_type: Some("react".to_owned()),
        title: Some(title.to_owned()),
    }
}

// ── Laws ────────────────────────────────────────────────────────────────────────────────────

/// Whether no session was updated after an earlier one.
pub open spec fn recent_first(metas: Seq<SessionMeta>) -> bool {
    forall|i: int, j: int|
        0 <= i < j < metas.len() ==> (#[trigger] metas[i]).updated_at_ms >= (
        #[trigger] metas[j]).updated_at_ms
}

/// Whether no two sessions have one identifier.
pub open spec fn distinct_ids(metas: Seq<SessionMeta>) -> bool {
    forall|i: int, j: int|
        0 <= i < j < metas.len() ==> (#[trigger] metas[i]).id@ != (#[trigger] metas[j]).id@
}

proof fn lemma_placed_holds(metas: Seq<SessionMeta>, m: SessionMeta)
    requires
        recent_first(metas),
    ensures
        recent_first(placed(metas, m)),
        placed(metas, m).to_multiset() == metas.to_multiset().insert(m),
    decreases metas.len(),
{
    broadcast use vstd::seq_lib::group_to_multiset_ensures;

    if metas.len() > 0 && m.updated_at_ms > metas.last().updated_at_ms {
        let front = metas.drop_last();
        let last = metas.last();
        lemma_placed_holds(front, m);
        let p = placed(front, m);
        assert(metas =~= front.push(last));
        assert forall|i: int, j: int| 0 <= i < j < p.push(last).len() implies (#[trigger] p.push(
            last,
        )[i]).updated_at_ms >= (#[trigger] p.push(last)[j]).updated_at_ms by {
            if j == p.len() {
                assert(p.to_multiset().count(p[i]) > 0);
                if p[i] != m {
                    assert(front.to_multiset().count(p[i]) > 0);
                    assert(front.contains(p[i]));
                    let k = choose|k: int| 0 <= k < front.len() && front[k] == p[i];
                    assert(metas[k] == p[i]);
                    assert(metas[metas.len() - 1] == last);
                }
            }
        }
        assert(placed(metas, m).to_multiset() =~= metas.to_multiset().insert(m));
    } else {
        assert forall|i: int, j: int| 0 <= i < j < metas.push(m).len() implies (
        #[trigger] metas.push(m)[i]).updated_at_ms >= (
        #[trigger] metas.push(m)[j]).updated_at_ms by {
            if j == metas.len() && i < metas.len() - 1 {
                assert(metas[i].updated_at_ms >= metas[metas.len() - 1].updated_at_ms);
            }
        }
    }
}

/// Sorting keeps every session, and leaves the one that was updated last in front.
pub proof fn law_sessions_are_sorted(metas: Seq<SessionMeta>)
    ensures
        recent_first(by_recency(metas)),
        by_recency(metas).to_multiset() == metas.to_multiset(),
    decreases metas.len(),
{
    broadcast use vstd::seq_lib::group_to_multiset_ensures;

    if metas.len() > 0 {
        let front = metas.drop_last();
        law_sessions_are_sorted(front);
        lemma_placed_holds(by_recency(front), metas.last());
        assert(metas =~= front.push(metas.last()));
        assert(by_recency(metas).to_multiset() =~= metas.to_multiset());
    }
}

proof fn lemma_first_with(metas: Seq<SessionMeta>, id: Seq<char>, from: int)
    requires
        0 <= from <= metas.len(),
    ensures
        match first_with(metas, id, from) {
            Some(i) => from <= i < metas.len() && metas[i].id@ == id,
            None => forall|k: int| from <= k < metas.len() ==> (#[trigger] metas[k]).id@ != id,
        },
    decreases metas.len() - from,
{
    if from < metas.len() && metas[from].id@ != id {
        lemma_first_with(metas, id, from + 1);
    }
}

proof fn lemma_sorted_contains(metas: Seq<SessionMeta>, m: SessionMeta)
    ensures
        by_recency(metas).contains(m) == metas.contains(m),
{
    broadcast use vstd::seq_lib::group_to_multiset_ensures;

    law_sessions_are_sorted(metas);
    assert(by_recency(metas).contains(m) == (by_recency(metas).to_multiset().count(m) > 0));
    assert(metas.contains(m) == (metas.to_multiset().count(m) > 0));
}

/// What is stored of a session is what was stored last: after a session is stored the list holds
/// it, and of the sessions with other identifiers it holds those that it held before.
pub proof fn law_stored_session_is_read_back(
    metas: Seq<SessionMeta>,
    m: SessionMeta,
    other: SessionMeta,
)
    requires
        distinct_ids(metas),
    ensures
        by_recency(replaced_or_added(metas, m)).contains(m),
        other.id@ == m.id@ && other != m ==> !by_recency(replaced_or_added(metas, m)).contains(
            other,
        ),
        other.id@ != m.id@ ==> by_recency(replaced_or_added(metas, m)).contains(other)
            == metas.contains(other),
{
    let list = replaced_or_added(metas, m);
    lemma_first_with(metas, m.id@, 0);
    lemma_sorted_contains(list, m);
    lemma_sorted_contains(list, other);
    match first_with(metas, m.id@, 0) {
        Some(i) => {
            assert(list[i] == m);
            if list.contains(other) && other.id@ == m.id@ {
                let k = choose|k: int| 0 <= k < list.len() && list[k] == other;
                if k != i {
                    assert(metas[k].id@ == metas[i].id@);
                    if k < i {
                        assert(metas[k].id@ != metas[i].id@);
                    } else {
                        assert(metas[i].id@ != metas[k].id@);
                    }
                }
            }
            if other.id@ != m.id@ {
                if metas.contains(other) {
                    let k = choose|k: int| 0 <= k < metas.len() && metas[k] == other;
                    assert(list[k] == other);
                }
                if list.contains(other) {
                    let k = choose|k: int| 0 <= k < list.len() && list[k] == other;
                    assert(metas[k] == other);
                }
            }
        },
        None => {
            assert(list[metas.len() as int] == m);
            if list.contains(other) {
                let k = choose|k: int| 0 <= k < list.len() && list[k] == other;
                if k < metas.len() {
                    assert(metas[k] == other);
                }
            }
            if metas.contains(other) {
                let k = choose|k: int| 0 <= k < metas.len() && metas[k] == other;
                assert(list[k] == other);
            }
        },
    }
}

/// Storing a session keeps one session per identifier.
pub proof fn law_storing_keeps_ids_distinct(metas: Seq<SessionMeta>, m: SessionMeta)
    requires
        distinct_ids(metas),
    ensures
        distinct_ids(replaced_or_added(metas, m)),
{
    lemma_first_with(metas, m.id@, 0);
}

/// After a session is deleted the list holds no session with its identifier, and all others.
pub proof fn law_deleted_session_is_gone(
    metas: Seq<SessionMeta>,
    id: Seq<char>,
    other: SessionMeta,
)
    ensures
        without(metas, id).contains(other) == (metas.contains(other) && other.id@ != id),
    decreases metas.len(),
{
    if metas.len() > 0 {
        let front = metas.drop_last();
        law_deleted_session_is_gone(front, id, other);
        let w = without(front, id);
        let last = metas.last();
        if front.contains(other) {
            let k = choose|k: int| 0 <= k < front.len() && front[k] == other;
            assert(metas[k] == other);
        }
        if metas.contains(other) && !front.contains(other) {
            let k = choose|k: int| 0 <= k < metas.len() && metas[k] == other;
            if k < front.len() {
                assert(front[k] == other);
            }
            assert(other == last);
        }
        assert(metas[metas.len() - 1] == last);
        if last.id@ != id {
            let now = w.push(last);
            if w.contains(other) {
                let k = choose|k: int| 0 <= k < w.len() && w[k] == other;
                assert(now[k] == other);
            }
            assert(now[w.len() as int] == last);
            if now.contains(other) {
                let k = choose|k: int| 0 <= k < now.len() && now[k] == other;
                if k < w.len() {
                    assert(w[k] == other);
                }
            }
        }
    }
}

proof fn lemma_placed_keeps_order(metas: Seq<SessionMeta>, m: SessionMeta, at: u64)
    requires
        recent_first(metas),
    ensures
        placed(metas, m).filter(|x: SessionMeta| x.updated_at_ms == at) == metas.filter(
            |x: SessionMeta| x.updated_at_ms == at,
        ) + (if m.updated_at_ms == at {
            seq![m]
        } else {
            Seq::empty()
        }),
    decreases metas.len(),
{
    reveal(Seq::filter);
    let f = |x: SessionMeta| x.updated_at_ms == at;
    if metas.len() == 0 || m.updated_at_ms <= metas.last().updated_at_ms {
        assert(metas.push(m).drop_last() =~= metas);
        assert(metas.push(m).filter(f) =~= metas.filter(f) + (if m.updated_at_ms == at {
            seq![m]
        } else {
            Seq::empty()
        }));
    } else {
        let front = metas.drop_last();
        let last = metas.last();
        lemma_placed_keeps_order(front, m, at);
        let p = placed(front, m);
        assert(p.push(last).drop_last() =~= p);
        assert(p.push(last).filter(f) =~= metas.filter(f) + (if m.updated_at_ms == at {
            seq![m]
        } else {
            Seq::empty()
        }));
    }
}

/// Sessions that were updated at one time stay in their order.
pub proof fn law_sessions_of_one_time_keep_their_order(metas: Seq<SessionMeta>, at: u64)
    ensures
        by_recency(metas).filter(|x: SessionMeta| x.updated_at_ms == at) == metas.filter(
            |x: SessionMeta| x.updated_at_ms == at,
        ),
    decreases metas.len(),
{
    reveal(Seq::filter);
    let f = |x: SessionMeta| x.updated_at_ms == at;
    if metas.len() > 0 {
        let front = metas.drop_last();
        law_sessions_are_sorted(front);
        law_sessions_of_one_time_keep_their_order(front, at);
        lemma_placed_keeps_order(by_recency(front), metas.last(), at);
        assert(by_recency(metas).filter(f) =~= metas.filter(f));
    } else {
        assert(by_recency(metas).filter(f) =~= metas.filter(f));
    }
}

/// A deleted session leaves the others in their order.
pub proof fn law_deleting_keeps_the_order(metas: Seq<SessionMeta>, id: Seq<char>)
    ensures
        without(metas, id) == metas.filter(|m: SessionMeta| m.id@ != id),
    decreases metas.len(),
{
    reveal(Seq::filter);
    if metas.len() > 0 {
        law_deleting_keeps_the_order(metas.drop_last(), id);
    } else {
        assert(without(metas, id) =~= metas);
    }
}

} // verus!
