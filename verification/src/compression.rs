//! Context compression: the record of a pass, structured summaries, and what survives.

use vstd::prelude::*;
use crate::chat_turns::Message;
use crate::ids::{is_uuid_text, random_uuid};
use crate::text::{
    add_to, byte_count, char_from, chars_of, concat, find, find_from, find_pos, has_string, is_white, join,
    joined, lemma_find_from, no_strings, occurs_at, opt_str, starts_with, string_of, strs, text_bytes, trim,
    trim_end, trim_start, trimmed,
};

verus! {

/// What is to be compressed.
pub struct CompressionInput {
    pub messages: Vec<Message>,
    /// The number of tokens beyond which messages go.
    pub token_limit: usize,
    /// What the user asks at the moment.
    pub current_query: Option<String>,
    /// What the user wants summaries to keep.
    pub focus_instructions: Option<String>,
}

/// What is left after compression.
pub struct CompressionOutput {
    pub messages: Vec<Message>,
    /// The messages that went.
    pub evicted: Vec<Message>,
    pub checkpoint: Option<CompressionCheckpoint>,
}

/// How a call of a tool and its result were made to match again.
#[derive(Debug, Clone, Copy, PartialEq, Eq, Structural)]
pub enum ToolPairFixType {
    /// A result without its call was removed.
    OrphanedResultRemoved,
    /// Calls without results were cleared.
    DanglingCallCleared,
    /// A result was put in for a missing one.
    PlaceholderResultInserted,
}

/// A call of a tool and a result that were made to match again.
pub struct ToolPairFix {
    pub tool_call_id: String,
    pub fix_type: ToolPairFixType,
}

// ── The record of a pass ────────────────────────────────────────────────────────────────────

/// `chrono::Utc::now`, as text in the format of RFC 3339. What it says rests on the time.
#[verifier::external_body]
fn current_time() -> (r: String) {
    chrono::Utc::now().to_rfc3339_opts(chrono::SecondsFormat::AutoSi, true)
}

/// The record of a compression pass.
pub struct CompressionCheckpoint {
    pub checkpoint_id: String,
    /// Name of the strategy.
    pub strategy: String,
    /// First and last message that the pass covered.
    pub covered_range: Option<(usize, usize)>,
    pub summary: Option<String>,
    pub retained_count: usize,
    pub evicted_count: usize,
    pub protected_count: usize,
    pub tool_pair_fixes: Vec<ToolPairFix>,
    /// Number of messages that were handed on for facts to be remembered.
    pub memory_promotion_count: usize,
    pub token_before: usize,
    pub token_after: usize,
    pub compression_duration_ms: u64,
    /// When the record was made, in the format of RFC 3339.
    pub created_at: String,
    pub focus_instructions: Option<String>,
    /// Names of the levels that were applied.
    pub levels_applied: Vec<String>,
}

impl CompressionCheckpoint {
    /// The record of a pass that has done nothing yet.
    pub fn new(strategy: &str) -> (r: CompressionCheckpoint)
        ensures
            is_uuid_text(r.checkpoint_id@),
            r.strategy@ == strategy@,
            r.covered_range is None,
            r.summary is None,
            r.retained_count == 0,
            r.evicted_count == 0,
            r.protected_count == 0,
            r.tool_pair_fixes@.len() == 0,
            r.memory_promotion_count == 0,
            r.token_before == 0,
            r.token_after == 0,
            r.compression_duration_ms == 0,
            r.focus_instructions is None,
            r.levels_applied@.len() == 0,
    {
        CompressionCheckpoint {
            checkpoint_id: random_uuid(),
            strategy: strategy.to_owned(),
            covered_range: None,
            summary: None,
            retained_count: 0,
            evicted_count: 0,
            protected_count: 0,
            tool_pair_fixes: Vec::new(),
            memory_promotion_count: 0,
            token_before: 0,
            token_after: 0,
            compression_duration_ms: 0,
            created_at: current_time(),
            focus_instructions: None,
            levels_applied: Vec::new(),
        }
    }

    /// The record with the covered messages.
    pub fn with_covered_range(self, first: usize, last: usize) -> (r: CompressionCheckpoint)
        ensures
            r == (CompressionCheckpoint { covered_range: Some((first, last)), ..self }),
    {
        let mut r = self;
        r.covered_range = Some((first, last));
        r
    }

    /// The record with a summary.
    pub fn with_summary(self, summary: &str) -> (r: CompressionCheckpoint)
        ensures
            opt_str(r.summary) == Some(summary@),
            r == (CompressionCheckpoint { summary: r.summary, ..self }),
    {
        let mut r = self;
        r.summary = Some(summary.to_owned());
        r
    }

    /// The record with the numbers of tokens.
    pub fn with_tokens(self, before: usize, after: usize) -> (r: CompressionCheckpoint)
        ensures
            r == (CompressionCheckpoint { token_before: before, token_after: after, ..self }),
    {
        let mut r = self;
        r.token_before = before;
        r.token_after = after;
        r
    }

    /// The record with the numbers of messages.
    pub fn with_counts(self, retained: usize, evicted: usize) -> (r: CompressionCheckpoint)
        ensures
            r == (CompressionCheckpoint {
                retained_count: retained,
                evicted_count: evicted,
                ..self
            }),
    {
        let mut r = self;
        r.retained_count = retained;
        r.evicted_count = evicted;
        r
    }

    /// The record with the number of protected messages.
    pub fn with_protected_count(self, count: usize) -> (r: CompressionCheckpoint)
        ensures
            r == (CompressionCheckpoint { protected_count: count, ..self }),
    {
        let mut r = self;
        r.protected_count = count;
        r
    }

    /// The record with the number of messages that were handed on.
    pub fn with_memory_promotion_count(self, count: usize) -> (r: CompressionCheckpoint)
        ensures
            r == (CompressionCheckpoint { memory_promotion_count: count, ..self }),
    {
        let mut r = self;
        r.memory_promotion_count = count;
        r
    }

    /// The record with what was made to match.
    pub fn with_tool_fixes(self, fixes: Vec<ToolPairFix>) -> (r: CompressionCheckpoint)
        ensures
            r == (CompressionCheckpoint { tool_pair_fixes: fixes, ..self }),
    {
        let mut r = self;
        r.tool_pair_fixes = fixes;
        r
    }

    /// The record with its duration.
    pub fn with_duration_ms(self, ms: u64) -> (r: CompressionCheckpoint)
        ensures
            r == (CompressionCheckpoint { compression_duration_ms: ms, ..self }),
    {
        let mut r = self;
        r.compression_duration_ms = ms;
        r
    }

    /// The record with what the user wanted kept.
    pub fn with_focus(self, focus: Option<String>) -> (r: CompressionCheckpoint)
        ensures
            r == (CompressionCheckpoint { focus_instructions: focus, ..self }),
    {
        let mut r = self;
        r.focus_instructions = focus;
        r
    }

    /// The record with the applied levels.
    pub fn with_levels(self, levels: Vec<String>) -> (r: CompressionCheckpoint)
        ensures
            r == (CompressionCheckpoint { levels_applied: levels, ..self }),
    {
        let mut r = self;
        r.levels_applied = levels;
        r
    }
}

// ── Summaries ───────────────────────────────────────────────────────────────────────────────

/// A summary of a conversation, field by field.
pub struct StructuredSummary {
    pub goal: String,
    pub current_task: String,
    pub completed_actions: Vec<String>,
    pub pending_tasks: Vec<String>,
    pub decisions: Vec<String>,
    pub files_touched: Vec<String>,
    pub errors: Vec<String>,
    pub tool_outputs_summary: String,
    pub user_preferences: Vec<String>,
    pub next_step: String,
}

/// What a summary holds.
#[verifier::ext_equal]
pub struct SummaryView {
    pub goal: Seq<char>,
    pub current_task: Seq<char>,
    pub completed_actions: Seq<Seq<char>>,
    pub pending_tasks: Seq<Seq<char>>,
    pub decisions: Seq<Seq<char>>,
    pub files_touched: Seq<Seq<char>>,
    pub errors: Seq<Seq<char>>,
    pub tool_outputs_summary: Seq<char>,
    pub user_preferences: Seq<Seq<char>>,
    pub next_step: Seq<char>,
}

impl View for StructuredSummary {
    type V = SummaryView;

    open spec fn view(&self) -> SummaryView {
        SummaryView {
            goal: self.goal@,
            current_task: self.current_task@,
            completed_actions: strs(self.completed_actions@),
            pending_tasks: strs(self.pending_tasks@),
            decisions: strs(self.decisions@),
            files_touched: strs(self.files_touched@),
            errors: strs(self.errors@),
            tool_outputs_summary: self.tool_outputs_summary@,
            user_preferences: strs(self.user_preferences@),
            next_step: self.next_step@,
        }
    }
}

/// The newer text, where there is any.
pub open spec fn newest(earlier: Seq<char>, newer: Seq<char>) -> Seq<char> {
    if newer.len() > 0 {
        newer
    } else {
        earlier
    }
}

/// The list with what is new in another one at its end.
pub open spec fn added(earlier: Seq<Seq<char>>, newer: Seq<Seq<char>>) -> Seq<Seq<char>>
    decreases newer.len(),
{
    if newer.len() == 0 {
        earlier
    } else {
        let before = added(earlier, newer.drop_last());
        if before.contains(newer.last()) {
            before
        } else {
            before.push(newer.last())
        }
    }
}

/// The list without what is done.
pub open spec fn still_open(tasks: Seq<Seq<char>>, done: Seq<Seq<char>>) -> Seq<Seq<char>>
    decreases tasks.len(),
{
    if tasks.len() == 0 {
        Seq::empty()
    } else if done.contains(tasks.last()) {
        still_open(tasks.drop_last(), done)
    } else {
        still_open(tasks.drop_last(), done).push(tasks.last())
    }
}

/// The list with the new tasks that are not done at its end.
pub open spec fn with_new_tasks(
    tasks: Seq<Seq<char>>,
    newer: Seq<Seq<char>>,
    done: Seq<Seq<char>>,
) -> Seq<Seq<char>>
    decreases newer.len(),
{
    if newer.len() == 0 {
        tasks
    } else {
        let before = with_new_tasks(tasks, newer.drop_last(), done);
        let t = newer.last();
        if before.contains(t) || done.contains(t) {
            before
        } else {
            before.push(t)
        }
    }
}

/// A path without surrounding white space and without `./` at its beginning.
pub open spec fn normalized(path: Seq<char>) -> Seq<char> {
    let t = trim(path);
    if "./"@.is_prefix_of(t) {
        t.subrange(2, t.len() as int)
    } else {
        t
    }
}

/// A summary with newer information merged in.
pub open spec fn merged_summary(earlier: SummaryView, newer: SummaryView) -> SummaryView {
    let completed = added(earlier.completed_actions, newer.completed_actions);
    SummaryView {
        goal: newest(earlier.goal, newer.goal),
        current_task: newest(earlier.current_task, newer.current_task),
        completed_actions: completed,
        pending_tasks: with_new_tasks(
            still_open(earlier.pending_tasks, newer.completed_actions),
            newer.pending_tasks,
            completed,
        ),
        decisions: added(earlier.decisions, newer.decisions),
        files_touched: added(
            earlier.files_touched,
            newer.files_touched.map_values(|p: Seq<char>| normalized(p)),
        ),
        errors: added(earlier.errors, newer.errors),
        tool_outputs_summary: newest(earlier.tool_outputs_summary, newer.tool_outputs_summary),
        user_preferences: added(earlier.user_preferences, newer.user_preferences),
        next_step: newest(earlier.next_step, newer.next_step),
    }
}

fn take_newer(text: &mut String, newer: &String)
    ensures
        final(text)@ == newest(old(text)@, newer@),
{
    if !newer.as_str().is_empty() {
        *text = newer.clone();
    }
}

fn add_new(list: &mut Vec<String>, newer: &Vec<String>)
    ensures
        strs(final(list)@) == added(strs(old(list)@), strs(newer@)),
{
    let ghost start = strs(list@);
    let ghost all = strs(newer@);
    let mut i: usize = 0;
    assert(all.take(0) =~= Seq::<Seq<char>>::empty());
    while i < newer.len()
        invariant
            all == strs(newer@),
            i <= newer.len(),
            strs(list@) == added(start, all.take(i as int)),
        decreases newer.len() - i,
    {
        assert(all.take(i + 1).drop_last() =~= all.take(i as int));
        assert(all.take(i + 1).last() == newer@[i as int]@);
        if !has_string(list, newer[i].as_str()) {
            add_to(list, newer[i].as_str());
        }
        i = i + 1;
    }
    assert(all.take(all.len() as int) =~= all);
}

fn open_tasks(tasks: &Vec<String>, done: &Vec<String>) -> (r: Vec<String>)
    ensures
        strs(r@) == still_open(strs(tasks@), strs(done@)),
{
    let ghost all = strs(tasks@);
    let mut out = no_strings();
    let mut i: usize = 0;
    assert(all.take(0) =~= Seq::<Seq<char>>::empty());
    while i < tasks.len()
        invariant
            all == strs(tasks@),
            i <= tasks.len(),
            strs(out@) == still_open(all.take(i as int), strs(done@)),
        decreases tasks.len() - i,
    {
        assert(all.take(i + 1).drop_last() =~= all.take(i as int));
        assert(all.take(i + 1).last() == tasks@[i as int]@);
        if !has_string(done, tasks[i].as_str()) {
            add_to(&mut out, tasks[i].as_str());
        }
        i = i + 1;
    }
    assert(all.take(all.len() as int) =~= all);
    out
}

fn add_tasks(list: &mut Vec<String>, newer: &Vec<String>, done: &Vec<String>)
    ensures
        strs(final(list)@) == with_new_tasks(strs(old(list)@), strs(newer@), strs(done@)),
{
    let ghost start = strs(list@);
    let ghost all = strs(newer@);
    let mut i: usize = 0;
    assert(all.take(0) =~= Seq::<Seq<char>>::empty());
    while i < newer.len()
        invariant
            all == strs(newer@),
            i <= newer.len(),
            strs(list@) == with_new_tasks(start, all.take(i as int), strs(done@)),
        decreases newer.len() - i,
    {
        assert(all.take(i + 1).drop_last() =~= all.take(i as int));
        assert(all.take(i + 1).last() == newer@[i as int]@);
        if !has_string(list, newer[i].as_str()) && !has_string(done, newer[i].as_str()) {
            add_to(list, newer[i].as_str());
        }
        i = i + 1;
    }
    assert(all.take(all.len() as int) =~= all);
}

/// A path without surrounding white space and without `./` at its beginning.
pub fn normalize_path(path: &str) -> (r: String)
    ensures
        r@ == normalized(path@),
{
    let t = trimmed(path);
    if starts_with(t.as_str(), "./") {
        proof {
            reveal_strlit("./");
        }
        let v = chars_of(t.as_str());
        string_of(&v, 2, v.len())
    } else {
        t
    }
}

fn normalize_all(paths: &Vec<String>) -> (r: Vec<String>)
    ensures
        strs(r@) == strs(paths@).map_values(|p: Seq<char>| normalized(p)),
{
    let mut out: Vec<String> = Vec::new();
    let mut i: usize = 0;
    while i < paths.len()
        invariant
            i <= paths.len(),
            out.len() == i,
            forall|k: int| 0 <= k < i ==> (#[trigger] out@[k])@ == normalized(paths@[k]@),
        decreases paths.len() - i,
    {
        out.push(normalize_path(paths[i].as_str()));
        i = i + 1;
    }
    assert(strs(out@) =~= strs(paths@).map_values(|p: Seq<char>| normalized(p)));
    out
}

impl StructuredSummary {
    /// Merges newer information in: the newest goal, task, findings and next step count; lists
    /// grow by what is new in them; and what is completed is no longer pending.
    pub fn merge_with(&mut self, newer: &StructuredSummary)
        ensures
            final(self)@ == merged_summary(old(self)@, newer@),
    {
        take_newer(&mut self.goal, &newer.goal);
        take_newer(&mut self.current_task, &newer.current_task);
        add_new(&mut self.completed_actions, &newer.completed_actions);
        let mut pending = open_tasks(&self.pending_tasks, &newer.completed_actions);
        proof {
            lemma_added_has_newer(
                strs(old(self).completed_actions@),
                strs(newer.completed_actions@),
            );
        }
        add_tasks(&mut pending, &newer.pending_tasks, &self.completed_actions);
        self.pending_tasks = pending;
        add_new(&mut self.decisions, &newer.decisions);
        let files = normalize_all(&newer.files_touched);
        add_new(&mut self.files_touched, &files);
        add_new(&mut self.errors, &newer.errors);
        take_newer(&mut self.tool_outputs_summary, &newer.tool_outputs_summary);
        add_new(&mut self.user_preferences, &newer.user_preferences);
        take_newer(&mut self.next_step, &newer.next_step);
    }
}

impl Default for StructuredSummary {
    fn default() -> (r: StructuredSummary)
        ensures
            r.goal@.len() == 0,
            r.current_task@.len() == 0,
            r.completed_actions@.len() == 0,
            r.pending_tasks@.len() == 0,
            r.decisions@.len() == 0,
            r.files_touched@.len() == 0,
            r.errors@.len() == 0,
            r.tool_outputs_summary@.len() == 0,
            r.user_preferences@.len() == 0,
            r.next_step@.len() == 0,
    {
        StructuredSummary {
            goal: String::new(),
            current_task: String::new(),
            completed_actions: Vec::new(),
            pending_tasks: Vec::new(),
            decisions: Vec::new(),
            files_touched: Vec::new(),
            errors: Vec::new(),
            tool_outputs_summary: String::new(),
            user_preferences: Vec::new(),
            next_step: String::new(),
        }
    }
}

/// The message of the system that carries a summary, given the summary as JSON.
pub fn summary_message(json: &str) -> (r: String)
    ensures
        r@ == "[对话历史摘要]\n"@ + json@,
{
    concat("[对话历史摘要]\n", json)
}

// ── JSON in an answer ───────────────────────────────────────────────────────────────────────

/// What stands between a fence and the next closing one, without surrounding white space.
pub open spec fn fenced(s: Seq<char>, fence: Seq<char>) -> Option<Seq<char>> {
    match find(s, fence) {
        Some(i) => match find_from(s, "```"@, i + fence.len()) {
            Some(j) => Some(trim(s.subrange(i + fence.len(), j))),
            None => None,
        },
        None => None,
    }
}

/// The position of the last `c` before `to`.
pub open spec fn last_before(s: Seq<char>, c: char, to: int) -> Option<int>
    decreases to,
{
    if to <= 0 {
        None
    } else if s[to - 1] == c {
        Some(to - 1)
    } else {
        last_before(s, c, to - 1)
    }
}

/// What stands from the first opening to the last closing brace, where that is ten bytes or more.
pub open spec fn braced(s: Seq<char>) -> Option<Seq<char>> {
    match (char_from(s, '{', 0), last_before(s, '}', s.len() as int)) {
        (Some(i), Some(j)) => if text_bytes(s.subrange(i, j + 1)) >= 10 {
            Some(s.subrange(i, j + 1))
        } else {
            None
        },
        _ => None,
    }
}

/// Whether the last closing brace does not stand before the first opening one, with something
/// between them.
pub open spec fn braces_in_order(s: Seq<char>) -> bool {
    match (char_from(s, '{', 0), last_before(s, '}', s.len() as int)) {
        (Some(i), Some(j)) => i <= j + 1,
        _ => true,
    }
}

/// The fence whose content is taken for JSON, where there is one: one marked as JSON, or any whose
/// content begins with a brace.
pub open spec fn fenced_json(s: Seq<char>) -> Option<Seq<char>> {
    match fenced(s, "```json"@) {
        Some(t) => Some(t),
        None => match fenced(s, "```"@) {
            Some(t) => if "{"@.is_prefix_of(t) {
                Some(t)
            } else {
                None
            },
            None => None,
        },
    }
}

/// The JSON in an answer of a model.
pub open spec fn json_in(s: Seq<char>) -> Option<Seq<char>> {
    match fenced_json(s) {
        Some(t) => Some(t),
        None => braced(s),
    }
}

fn in_fence(v: &Vec<char>, fence: &str) -> (r: Option<String>)
    requires
        fence@.len() > 0,
    ensures
        opt_str(r) == fenced(v@, fence@),
{
    let f = chars_of(fence);
    let close = chars_of("```");
    let n: usize = v.len();
    proof {
        lemma_find_from(v@, fence@, 0);
    }
    match find_pos(v, &f, 0) {
        Some(i) => {
            let from: usize = i + f.len();
            proof {
                lemma_find_from(v@, "```"@, from as int);
                reveal_strlit("```");
            }
            match find_pos(v, &close, from) {
                Some(j) => {
                    let text = string_of(v, from, j);
                    Some(trimmed(text.as_str()))
                },
                None => None,
            }
        },
        None => None,
    }
}

fn brace_positions(v: &Vec<char>) -> (r: (Option<usize>, Option<usize>))
    ensures
        match r.0 {
            Some(i) => char_from(v@, '{', 0) == Some(i as int) && i < v.len(),
            None => char_from(v@, '{', 0) is None,
        },
        match r.1 {
            Some(j) => last_before(v@, '}', v@.len() as int) == Some(j as int) && j < v.len(),
            None => last_before(v@, '}', v@.len() as int) is None,
        },
{
    let mut first: Option<usize> = None;
    let mut i: usize = 0;
    while i < v.len() && first.is_none()
        invariant
            i <= v.len(),
            match first {
                Some(x) => char_from(v@, '{', 0) == Some(x as int) && x < v.len(),
                None => char_from(v@, '{', 0) == char_from(v@, '{', i as int),
            },
        decreases v.len() - i,
    {
        if v[i] == '{' {
            first = Some(i);
        }
        i = i + 1;
    }
    let mut last: Option<usize> = None;
    let mut j: usize = v.len();
    while j > 0 && last.is_none()
        invariant
            j <= v.len(),
            match last {
                Some(x) => last_before(v@, '}', v@.len() as int) == Some(x as int) && x < v.len(),
                None => last_before(v@, '}', v@.len() as int) == last_before(v@, '}', j as int),
            },
        decreases j,
    {
        if v[j - 1] == '}' {
            last = Some(j - 1);
        }
        j = j - 1;
    }
    (first, last)
}

/// Whether JSON can be looked for in an answer: a fence holds it, or the braces are in order.
pub fn can_extract(text: &str) -> (r: bool)
    ensures
        r == (fenced_json(text@) is Some || braces_in_order(text@)),
{
    if find_fenced(text).is_some() {
        return true;
    }
    let v = chars_of(text);
    match brace_positions(&v) {
        (Some(i), Some(j)) => i <= j + 1,
        _ => true,
    }
}

fn find_fenced(text: &str) -> (r: Option<String>)
    ensures
        opt_str(r) == fenced_json(text@),
{
    let v = chars_of(text);
    proof {
        reveal_strlit("```json");
        reveal_strlit("```");
    }
    if let Some(t) = in_fence(&v, "```json") {
        return Some(t);
    }
    if let Some(t) = in_fence(&v, "```") {
        if starts_with(t.as_str(), "{") {
            return Some(t);
        }
    }
    None
}

/// The JSON in an answer of a model, which may stand in a fence or among other text.
pub fn extract_json_from_text(text: &str) -> (r: Option<String>)
    requires
        fenced_json(text@) is Some || braces_in_order(text@),
    ensures
        opt_str(r) == json_in(text@),
{
    if let Some(t) = find_fenced(text) {
        return Some(t);
    }
    let v = chars_of(text);
    match brace_positions(&v) {
        (Some(i), Some(j)) => {
            let candidate = string_of(&v, i, j + 1);
            if byte_count(candidate.as_str()) >= 10 {
                Some(candidate)
            } else {
                None
            }
        },
        _ => None,
    }
}

// ── What survives ───────────────────────────────────────────────────────────────────────────

/// What the model is told again after a compression.
pub struct CanonicalContext {
    pub system_prompt: Option<String>,
    pub project_rules: Option<String>,
    pub skill_injections: Vec<String>,
    pub active_skill_names: Vec<String>,
}

impl CanonicalContext {
    /// Whether anything is to be told again.
    pub open spec fn any(&self) -> bool {
        self.system_prompt is Some || self.project_rules is Some || self.skill_injections@.len() > 0
    }

    /// What is told again, one message after the other: the whole system prompt, the whole rules of
    /// the project and the names of the active skills.
    pub open spec fn messages(&self) -> Seq<Seq<char>> {
        let a = match self.system_prompt {
            Some(p) => seq![
                "[Canonical context — system prompt restored after compression]:\n"@ + p@,
            ],
            None => Seq::empty(),
        };
        let b = match self.project_rules {
            Some(r) => a.push("[Canonical context — project rules restored]:\n"@ + r@),
            None => a,
        };
        if self.active_skill_names@.len() > 0 {
            b.push(
                "[Canonical context — active skills]: "@ + join(
                    strs(self.active_skill_names@),
                    ", "@,
                ),
            )
        } else {
            b
        }
    }

    /// Whether anything is to be told again.
    pub fn has_any(&self) -> (r: bool)
        ensures
            r == self.any(),
    {
        self.system_prompt.is_some() || self.project_rules.is_some() || self.skill_injections.len()
            > 0
    }

    /// What is told again, one message after the other; nothing where there is nothing to tell.
    pub fn to_reinjection_messages(&self) -> (r: Option<Vec<String>>)
        ensures
            match r {
                Some(v) => self.any() && strs(v@) == self.messages(),
                None => !self.any(),
            },
    {
        if !self.has_any() {
            return None;
        }
        let mut out = no_strings();
        if let Some(p) = &self.system_prompt {
            let m = concat(
                "[Canonical context — system prompt restored after compression]:\n",
                p.as_str(),
            );
            add_to(&mut out, m.as_str());
            assert(strs(out@) =~= seq![m@]);
        }
        if let Some(t) = &self.project_rules {
            let m = concat("[Canonical context — project rules restored]:\n", t.as_str());
            add_to(&mut out, m.as_str());
        }
        if self.active_skill_names.len() > 0 {
            add_to(
                &mut out,
                concat(
                    "[Canonical context — active skills]: ",
                    joined(&self.active_skill_names, ", ").as_str(),
                ).as_str(),
            );
        }
        Some(out)
    }
}

impl Default for CanonicalContext {
    fn default() -> (r: CanonicalContext)
        ensures
            !r.any(),
            r.active_skill_names@.len() == 0,
    {
        CanonicalContext {
            system_prompt: None,
            project_rules: None,
            skill_injections: Vec::new(),
            active_skill_names: Vec::new(),
        }
    }
}

// ── Laws ────────────────────────────────────────────────────────────────────────────────────

proof fn lemma_push_contains(s: Seq<Seq<char>>, x: Seq<char>)
    ensures
        s.push(x).contains(x),
        forall|y: Seq<char>| #[trigger] s.contains(y) ==> s.push(x).contains(y),
        forall|y: Seq<char>| #[trigger] s.push(x).contains(y) ==> y == x || s.contains(y),
{
    let t = s.push(x);
    assert(t[s.len() as int] == x);
    assert forall|y: Seq<char>| #[trigger] s.contains(y) implies t.contains(y) by {
        let i = choose|i: int| 0 <= i < s.len() && s[i] == y;
        assert(t[i] == y);
    }
    assert forall|y: Seq<char>| #[trigger] t.contains(y) implies y == x || s.contains(y) by {
        let i = choose|i: int| 0 <= i < t.len() && t[i] == y;
        if i < s.len() {
            assert(s[i] == y);
        }
    }
}

proof fn lemma_added_has_newer(earlier: Seq<Seq<char>>, newer: Seq<Seq<char>>)
    ensures
        forall|x: Seq<char>| #[trigger]
            added(earlier, newer).contains(x) <==> earlier.contains(x) || newer.contains(x),
        earlier.no_duplicates() ==> added(earlier, newer).no_duplicates(),
    decreases newer.len(),
{
    if newer.len() > 0 {
        let front = newer.drop_last();
        lemma_added_has_newer(earlier, front);
        let before = added(earlier, front);
        lemma_push_contains(front, newer.last());
        assert(front.push(newer.last()) =~= newer);
        lemma_push_contains(before, newer.last());
        assert forall|x: Seq<char>| #[trigger]
            added(earlier, newer).contains(x) <==> earlier.contains(x) || newer.contains(x) by {
            assert(before.contains(x) <==> earlier.contains(x) || front.contains(x));
            assert(before.push(newer.last()).contains(x) <==> x == newer.last() || before.contains(
                x,
            ));
            assert(newer.contains(x) <==> x == newer.last() || front.contains(x));
        }
    }
}

/// Merging forgets nothing that was completed, decided, touched, met or preferred, and takes over
/// everything of that kind that is newer; lists without repetitions stay so.
pub proof fn law_merging_keeps_history(earlier: SummaryView, newer: SummaryView, x: Seq<char>)
    ensures
        merged_summary(earlier, newer).completed_actions.contains(x) <==> earlier.completed_actions.contains(
            x,
        ) || newer.completed_actions.contains(x),
        merged_summary(earlier, newer).decisions.contains(x) <==> earlier.decisions.contains(x)
            || newer.decisions.contains(x),
        merged_summary(earlier, newer).errors.contains(x) <==> earlier.errors.contains(x)
            || newer.errors.contains(x),
        merged_summary(earlier, newer).user_preferences.contains(x) <==> earlier.user_preferences.contains(
            x,
        ) || newer.user_preferences.contains(x),
        earlier.files_touched.contains(x) ==> merged_summary(earlier, newer).files_touched.contains(x),
        earlier.decisions.no_duplicates() ==> merged_summary(earlier, newer).decisions.no_duplicates(),
        earlier.completed_actions.no_duplicates() ==> merged_summary(
            earlier,
            newer,
        ).completed_actions.no_duplicates(),
{
    lemma_added_has_newer(earlier.completed_actions, newer.completed_actions);
    lemma_added_has_newer(earlier.decisions, newer.decisions);
    lemma_added_has_newer(earlier.errors, newer.errors);
    lemma_added_has_newer(earlier.user_preferences, newer.user_preferences);
    lemma_added_has_newer(
        earlier.files_touched,
        newer.files_touched.map_values(|p: Seq<char>| normalized(p)),
    );
}

proof fn lemma_still_open(tasks: Seq<Seq<char>>, done: Seq<Seq<char>>)
    ensures
        forall|x: Seq<char>| #[trigger]
            still_open(tasks, done).contains(x) <==> tasks.contains(x) && !done.contains(x),
    decreases tasks.len(),
{
    if tasks.len() > 0 {
        let front = tasks.drop_last();
        lemma_still_open(front, done);
        lemma_push_contains(front, tasks.last());
        assert(front.push(tasks.last()) =~= tasks);
        let before = still_open(front, done);
        lemma_push_contains(before, tasks.last());
        assert forall|x: Seq<char>| #[trigger]
            still_open(tasks, done).contains(x) <==> tasks.contains(x) && !done.contains(x) by {
            assert(before.contains(x) <==> front.contains(x) && !done.contains(x));
            assert(before.push(tasks.last()).contains(x) <==> x == tasks.last() || before.contains(
                x,
            ));
            assert(tasks.contains(x) <==> x == tasks.last() || front.contains(x));
        }
    }
}

proof fn lemma_new_tasks(tasks: Seq<Seq<char>>, newer: Seq<Seq<char>>, done: Seq<Seq<char>>)
    ensures
        forall|x: Seq<char>| #[trigger]
            with_new_tasks(tasks, newer, done).contains(x) <==> tasks.contains(x) || (
            newer.contains(x) && !done.contains(x)),
    decreases newer.len(),
{
    if newer.len() > 0 {
        let front = newer.drop_last();
        lemma_new_tasks(tasks, front, done);
        lemma_push_contains(front, newer.last());
        assert(front.push(newer.last()) =~= newer);
        let before = with_new_tasks(tasks, front, done);
        lemma_push_contains(before, newer.last());
        assert forall|x: Seq<char>| #[trigger]
            with_new_tasks(tasks, newer, done).contains(x) <==> tasks.contains(x) || (
            newer.contains(x) && !done.contains(x)) by {
            assert(before.contains(x) <==> tasks.contains(x) || (front.contains(x)
                && !done.contains(x)));
            assert(before.push(newer.last()).contains(x) <==> x == newer.last() || before.contains(
                x,
            ));
            assert(newer.contains(x) <==> x == newer.last() || front.contains(x));
        }
    }
}

/// Nothing that the newer summary completes is pending after the merge, and what is newly pending
/// is not completed.
pub proof fn law_completed_tasks_are_not_pending(earlier: SummaryView, newer: SummaryView, x: Seq<char>)
    ensures
        newer.completed_actions.contains(x) ==> !merged_summary(earlier, newer).pending_tasks.contains(
            x,
        ),
        merged_summary(earlier, newer).pending_tasks.contains(x) ==> earlier.pending_tasks.contains(x)
            || newer.pending_tasks.contains(x),
        earlier.pending_tasks.contains(x) && !newer.completed_actions.contains(x) ==> merged_summary(
            earlier,
            newer,
        ).pending_tasks.contains(x),
{
    let completed = added(earlier.completed_actions, newer.completed_actions);
    lemma_added_has_newer(earlier.completed_actions, newer.completed_actions);
    lemma_still_open(earlier.pending_tasks, newer.completed_actions);
    lemma_new_tasks(
        still_open(earlier.pending_tasks, newer.completed_actions),
        newer.pending_tasks,
        completed,
    );
}

proof fn lemma_nothing_added(list: Seq<Seq<char>>, newer: Seq<Seq<char>>)
    requires
        forall|x: Seq<char>| #[trigger] newer.contains(x) ==> list.contains(x),
    ensures
        added(list, newer) == list,
    decreases newer.len(),
{
    if newer.len() > 0 {
        let front = newer.drop_last();
        lemma_push_contains(front, newer.last());
        assert(front.push(newer.last()) =~= newer);
        assert(newer.contains(newer.last()));
        lemma_nothing_added(list, front);
    }
}

proof fn lemma_nothing_done(tasks: Seq<Seq<char>>, done: Seq<Seq<char>>)
    requires
        forall|x: Seq<char>| #[trigger] tasks.contains(x) ==> !done.contains(x),
    ensures
        still_open(tasks, done) == tasks,
    decreases tasks.len(),
{
    if tasks.len() > 0 {
        let front = tasks.drop_last();
        lemma_push_contains(front, tasks.last());
        assert(front.push(tasks.last()) =~= tasks);
        assert(tasks.contains(tasks.last()));
        lemma_nothing_done(front, done);
    } else {
        assert(still_open(tasks, done) =~= tasks);
    }
}

proof fn lemma_no_new_tasks(tasks: Seq<Seq<char>>, newer: Seq<Seq<char>>, done: Seq<Seq<char>>)
    requires
        forall|x: Seq<char>| #[trigger] newer.contains(x) ==> tasks.contains(x) || done.contains(x),
    ensures
        with_new_tasks(tasks, newer, done) == tasks,
    decreases newer.len(),
{
    if newer.len() > 0 {
        let front = newer.drop_last();
        lemma_push_contains(front, newer.last());
        assert(front.push(newer.last()) =~= newer);
        assert(newer.contains(newer.last()));
        lemma_no_new_tasks(tasks, front, done);
    }
}

proof fn lemma_added_twice(earlier: Seq<Seq<char>>, newer: Seq<Seq<char>>)
    ensures
        added(added(earlier, newer), newer) == added(earlier, newer),
{
    lemma_added_has_newer(earlier, newer);
    lemma_nothing_added(added(earlier, newer), newer);
}

/// Merging the same summary in a second time changes nothing.
pub proof fn law_merging_twice_changes_nothing(earlier: SummaryView, newer: SummaryView)
    ensures
        merged_summary(merged_summary(earlier, newer), newer) == merged_summary(earlier, newer),
{
    let once = merged_summary(earlier, newer);
    lemma_added_twice(earlier.completed_actions, newer.completed_actions);
    lemma_added_twice(earlier.decisions, newer.decisions);
    lemma_added_twice(
        earlier.files_touched,
        newer.files_touched.map_values(|p: Seq<char>| normalized(p)),
    );
    lemma_added_twice(earlier.errors, newer.errors);
    lemma_added_twice(earlier.user_preferences, newer.user_preferences);
    lemma_added_has_newer(earlier.completed_actions, newer.completed_actions);
    lemma_still_open(earlier.pending_tasks, newer.completed_actions);
    lemma_new_tasks(
        still_open(earlier.pending_tasks, newer.completed_actions),
        newer.pending_tasks,
        once.completed_actions,
    );
    lemma_nothing_done(once.pending_tasks, newer.completed_actions);
    lemma_no_new_tasks(once.pending_tasks, newer.pending_tasks, once.completed_actions);
}

/// What the newer summary says of the goal, the current task, the outputs of tools and the next step
/// counts, whatever the earlier one said; where it says nothing, the earlier text stays.
pub proof fn law_newest_texts_count(earlier: SummaryView, newer: SummaryView)
    ensures
        newer.goal.len() > 0 ==> merged_summary(earlier, newer).goal == newer.goal,
        newer.goal.len() == 0 ==> merged_summary(earlier, newer).goal == earlier.goal,
        newer.current_task.len() > 0 ==> merged_summary(earlier, newer).current_task
            == newer.current_task,
        newer.current_task.len() == 0 ==> merged_summary(earlier, newer).current_task
            == earlier.current_task,
        newer.tool_outputs_summary.len() > 0 ==> merged_summary(earlier, newer).tool_outputs_summary
            == newer.tool_outputs_summary,
        newer.tool_outputs_summary.len() == 0 ==> merged_summary(
            earlier,
            newer,
        ).tool_outputs_summary == earlier.tool_outputs_summary,
        newer.next_step.len() > 0 ==> merged_summary(earlier, newer).next_step == newer.next_step,
        newer.next_step.len() == 0 ==> merged_summary(earlier, newer).next_step
            == earlier.next_step,
{
}

/// Whether `r` is the earlier list with what the newer one has besides it behind it: each new entry
/// once, and in the order in which the newer list has them first.
pub open spec fn grown(
    earlier: Seq<Seq<char>>,
    newer: Seq<Seq<char>>,
    r: Seq<Seq<char>>,
) -> bool {
    &&& earlier.is_prefix_of(r)
    &&& forall|i: int| 0 <= i < newer.len() ==> r.contains(#[trigger] newer[i])
    &&& forall|k: int|
        earlier.len() <= k < r.len() ==> newer.contains(#[trigger] r[k]) && !r.take(k).contains(r[k])
    &&& forall|k: int, l: int, i: int|
        #![trigger r[k], r[l], newer[i]]
        earlier.len() <= k < l < r.len() && 0 <= i < newer.len() && newer[i] == r[l]
            ==> newer.take(i).contains(r[k])
}

proof fn lemma_added_grows(earlier: Seq<Seq<char>>, newer: Seq<Seq<char>>)
    ensures
        grown(earlier, newer, added(earlier, newer)),
    decreases newer.len(),
{
    let r = added(earlier, newer);
    if newer.len() == 0 {
        assert(earlier =~= r.take(earlier.len() as int));
    } else {
        let front = newer.drop_last();
        let x = newer.last();
        let before = added(earlier, front);
        lemma_added_grows(earlier, front);
        lemma_added_has_newer(earlier, front);
        assert(newer =~= front.push(x));
        lemma_push_contains(front, x);
        lemma_push_contains(before, x);
        assert(forall|k: int| 0 <= k < before.len() ==> #[trigger] r[k] == before[k]);
        assert(earlier =~= r.take(earlier.len() as int));
        assert forall|i: int| 0 <= i < newer.len() implies r.contains(#[trigger] newer[i]) by {
            if i < front.len() {
                assert(before.contains(front[i]));
            }
        }
        assert forall|k: int| earlier.len() <= k < r.len() implies newer.contains(#[trigger] r[k])
            && !r.take(k).contains(r[k]) by {
            assert(r.take(k) =~= before.take(k));
            if k == before.len() {
                assert(before.take(k) =~= before);
                assert(newer.contains(x));
            } else {
                assert(front.contains(before[k]));
            }
        }
        assert forall|k: int, l: int, i: int|
            #![trigger r[k], r[l], newer[i]]
            earlier.len() <= k < l < r.len() && 0 <= i < newer.len() && newer[i]
                == r[l] implies newer.take(i).contains(r[k]) by {
            assert(front.contains(before[k]));
            if i < front.len() {
                assert(newer.take(i) =~= front.take(i));
                assert(front.contains(front[i]));
                assert(before.contains(front[i]));
                if l < before.len() {
                    assert(before[l] == front[i]);
                    assert(front.take(i).contains(before[k]));
                }
            } else {
                assert(newer.take(i) =~= front);
            }
        }
    }
}

proof fn lemma_still_open_filters(tasks: Seq<Seq<char>>, done: Seq<Seq<char>>)
    ensures
        still_open(tasks, done) == tasks.filter(|x: Seq<char>| !done.contains(x)),
    decreases tasks.len(),
{
    reveal(Seq::filter);
    if tasks.len() > 0 {
        lemma_still_open_filters(tasks.drop_last(), done);
    } else {
        assert(still_open(tasks, done) =~= tasks);
    }
}

proof fn lemma_new_tasks_are_added(
    tasks: Seq<Seq<char>>,
    newer: Seq<Seq<char>>,
    done: Seq<Seq<char>>,
)
    ensures
        with_new_tasks(tasks, newer, done) == added(
            tasks,
            newer.filter(|x: Seq<char>| !done.contains(x)),
        ),
    decreases newer.len(),
{
    reveal(Seq::filter);
    if newer.len() > 0 {
        lemma_new_tasks_are_added(tasks, newer.drop_last(), done);
        let kept = newer.drop_last().filter(|x: Seq<char>| !done.contains(x));
        assert(kept.push(newer.last()).drop_last() =~= kept);
    }
}

/// The lists of a summary only grow at their end by what is new, each entry once and in order; the
/// paths of files are compared and added in their plain form. Of the pending tasks those stay that
/// the newer summary has not completed, and behind them come its own that are not completed.
pub proof fn law_merged_lists_grow_at_their_end(earlier: SummaryView, newer: SummaryView)
    ensures
        grown(
            earlier.completed_actions,
            newer.completed_actions,
            merged_summary(earlier, newer).completed_actions,
        ),
        grown(earlier.decisions, newer.decisions, merged_summary(earlier, newer).decisions),
        grown(
            earlier.files_touched,
            newer.files_touched.map_values(|p: Seq<char>| normalized(p)),
            merged_summary(earlier, newer).files_touched,
        ),
        grown(earlier.errors, newer.errors, merged_summary(earlier, newer).errors),
        grown(
            earlier.user_preferences,
            newer.user_preferences,
            merged_summary(earlier, newer).user_preferences,
        ),
        grown(
            earlier.pending_tasks.filter(|x: Seq<char>| !newer.completed_actions.contains(x)),
            newer.pending_tasks.filter(
                |x: Seq<char>| !merged_summary(earlier, newer).completed_actions.contains(x),
            ),
            merged_summary(earlier, newer).pending_tasks,
        ),
{
    lemma_added_grows(earlier.completed_actions, newer.completed_actions);
    lemma_added_grows(earlier.decisions, newer.decisions);
    lemma_added_grows(
        earlier.files_touched,
        newer.files_touched.map_values(|p: Seq<char>| normalized(p)),
    );
    lemma_added_grows(earlier.errors, newer.errors);
    lemma_added_grows(earlier.user_preferences, newer.user_preferences);
    let done = added(earlier.completed_actions, newer.completed_actions);
    lemma_still_open_filters(earlier.pending_tasks, newer.completed_actions);
    lemma_new_tasks_are_added(
        still_open(earlier.pending_tasks, newer.completed_actions),
        newer.pending_tasks,
        done,
    );
    lemma_added_grows(
        still_open(earlier.pending_tasks, newer.completed_actions),
        newer.pending_tasks.filter(|x: Seq<char>| !done.contains(x)),
    );
}

proof fn lemma_found(s: Seq<char>, p: Seq<char>, from: int, i: int)
    requires
        0 <= from <= i,
        occurs_at(s, p, i),
        forall|k: int| from <= k < i ==> !#[trigger] occurs_at(s, p, k),
    ensures
        find_from(s, p, from) == Some(i),
{
    lemma_find_from(s, p, from);
}

proof fn lemma_first_char(s: Seq<char>, c: char, from: int, i: int)
    requires
        0 <= from <= i < s.len(),
        s[i] == c,
        forall|k: int| from <= k < i ==> s[k] != c,
    ensures
        char_from(s, c, from) == Some(i),
    decreases i - from,
{
    if from < i {
        lemma_first_char(s, c, from + 1, i);
    }
}

proof fn lemma_last_char(s: Seq<char>, c: char, to: int, i: int)
    requires
        0 <= i < to <= s.len(),
        s[i] == c,
        forall|k: int| i < k < to ==> s[k] != c,
    ensures
        last_before(s, c, to) == Some(i),
    decreases to - i,
{
    if i + 1 < to {
        lemma_last_char(s, c, to - 1, i);
    }
}

proof fn lemma_no_char(s: Seq<char>, c: char, from: int, to: int)
    requires
        0 <= from <= s.len(),
        0 <= to <= s.len(),
        forall|k: int| from <= k < s.len() ==> s[k] != c,
        forall|k: int| 0 <= k < to ==> s[k] != c,
    ensures
        char_from(s, c, from) is None,
        last_before(s, c, to) is None,
    decreases s.len() - from + to,
{
    if from < s.len() {
        lemma_no_char(s, c, from + 1, to);
    }
    if to > 0 {
        lemma_no_char(s, c, from, to - 1);
    }
}

/// The JSON of an answer with a fence that is marked as JSON is what stands between the first such
/// fence, at `i`, and the next closing one, at `j`, without surrounding white space.
pub proof fn law_marked_fence_holds_the_json(s: Seq<char>, i: int, j: int)
    requires
        occurs_at(s, "```json"@, i),
        forall|k: int| 0 <= k < i ==> !#[trigger] occurs_at(s, "```json"@, k),
        i + 7 <= j,
        occurs_at(s, "```"@, j),
        forall|k: int| i + 7 <= k < j ==> !#[trigger] occurs_at(s, "```"@, k),
    ensures
        json_in(s) == Some(trim(s.subrange(i + 7, j))),
{
    reveal_strlit("```json");
    lemma_found(s, "```json"@, 0, i);
    lemma_found(s, "```"@, i + 7, j);
}

/// The JSON of an answer without a fence marked as JSON is what stands between the first fence, at
/// `i`, and the next one, at `j`, where that begins with a brace.
pub proof fn law_plain_fence_holds_the_json(s: Seq<char>, i: int, j: int)
    requires
        forall|k: int| 0 <= k ==> !#[trigger] occurs_at(s, "```json"@, k),
        occurs_at(s, "```"@, i),
        forall|k: int| 0 <= k < i ==> !#[trigger] occurs_at(s, "```"@, k),
        i + 3 <= j,
        occurs_at(s, "```"@, j),
        forall|k: int| i + 3 <= k < j ==> !#[trigger] occurs_at(s, "```"@, k),
        trim(s.subrange(i + 3, j)).len() > 0,
        trim(s.subrange(i + 3, j))[0] == '{',
    ensures
        json_in(s) == Some(trim(s.subrange(i + 3, j))),
{
    reveal_strlit("```");
    reveal_strlit("{");
    lemma_find_from(s, "```json"@, 0);
    lemma_found(s, "```"@, 0, i);
    lemma_found(s, "```"@, i + 3, j);
    assert("{"@ =~= trim(s.subrange(i + 3, j)).take(1));
}

/// The JSON of an answer without fences is what stands from its first opening brace, at `i`, to its
/// last closing one, at `j`, where that is ten bytes or more; without both braces there is none.
pub proof fn law_braces_hold_the_json(s: Seq<char>, i: int, j: int)
    requires
        forall|k: int| 0 <= k ==> !#[trigger] occurs_at(s, "```"@, k),
    ensures
        0 <= i <= j < s.len() && s[i] == '{' && s[j] == '}' && (forall|k: int|
            0 <= k < i ==> s[k] != '{') && (forall|k: int| j < k < s.len() ==> s[k] != '}')
            ==> json_in(s) == if text_bytes(s.subrange(i, j + 1)) >= 10 {
            Some(s.subrange(i, j + 1))
        } else {
            None
        },
        (forall|k: int| 0 <= k < s.len() ==> s[k] != '{') ==> json_in(s) is None,
        (forall|k: int| 0 <= k < s.len() ==> s[k] != '}') ==> json_in(s) is None,
{
    reveal_strlit("```json");
    reveal_strlit("```");
    assert forall|k: int| 0 <= k implies !#[trigger] occurs_at(s, "```json"@, k) by {
        if occurs_at(s, "```json"@, k) {
            assert("```json"@.take(3) =~= "```"@);
            assert(s.subrange(k, k + 3) =~= s.subrange(k, k + 7).take(3));
            assert(occurs_at(s, "```"@, k));
        }
    }
    lemma_find_from(s, "```json"@, 0);
    lemma_find_from(s, "```"@, 0);
    if 0 <= i <= j < s.len() && s[i] == '{' && s[j] == '}' && (forall|k: int|
        0 <= k < i ==> s[k] != '{') && (forall|k: int| j < k < s.len() ==> s[k] != '}') {
        lemma_first_char(s, '{', 0, i);
        lemma_last_char(s, '}', s.len() as int, j);
    }
    if forall|k: int| 0 <= k < s.len() ==> s[k] != '{' {
        lemma_no_char(s, '{', 0, s.len() as int);
    }
    if forall|k: int| 0 <= k < s.len() ==> s[k] != '}' {
        lemma_no_char(s, '}', 0, s.len() as int);
    }
}

/// What survives a compression is told again whole: the system prompt first, then the rules of the
/// project, then the names of the active skills, each in a message of its own and where there is any.
pub proof fn law_context_is_told_again_whole(c: CanonicalContext)
    ensures
        c.system_prompt is Some ==> c.messages().len() > 0 && c.system_prompt->0@.is_suffix_of(
            c.messages()[0],
        ),
        c.project_rules is Some ==> exists|i: int|
            0 <= i < c.messages().len() && c.project_rules->0@.is_suffix_of(
                #[trigger] c.messages()[i],
            ) && i == (if c.system_prompt is Some {
                1int
            } else {
                0
            }),
        c.active_skill_names@.len() > 0 ==> c.messages().len() > 0 && join(
            strs(c.active_skill_names@),
            ", "@,
        ).is_suffix_of(c.messages().last()),
        c.messages().len() == (if c.system_prompt is Some {
            1int
        } else {
            0
        }) + (if c.project_rules is Some {
            1int
        } else {
            0
        }) + (if c.active_skill_names@.len() > 0 {
            1int
        } else {
            0
        }),
        c.system_prompt is Some || c.project_rules is Some || c.skill_injections@.len() > 0
            <==> c.any(),
{
    let m = c.messages();
    if let Some(p) = c.system_prompt {
        let x = "[Canonical context — system prompt restored after compression]:\n"@ + p@;
        assert(m[0] == x);
        assert(p@ =~= x.subrange(x.len() - p@.len(), x.len() as int));
    }
    if let Some(r) = c.project_rules {
        let x = "[Canonical context — project rules restored]:\n"@ + r@;
        let i: int = if c.system_prompt is Some {
            1
        } else {
            0
        };
        assert(m[i] == x);
        assert(r@ =~= x.subrange(x.len() - r@.len(), x.len() as int));
    }
    if c.active_skill_names@.len() > 0 {
        let j = join(strs(c.active_skill_names@), ", "@);
        let x = "[Canonical context — active skills]: "@ + j;
        assert(m.last() == x);
        assert(j =~= x.subrange(x.len() - j.len(), x.len() as int));
    }
}

/// The plain form of a path is the path without the current directory in front of it.
pub proof fn law_paths_have_a_plain_form(path: Seq<char>)
    requires
        path.len() > 0,
        !is_white(path[0]) && !is_white(path.last()),
        !"./"@.is_prefix_of(path),
    ensures
        normalized(path) == path,
        normalized("./"@ + path) == path,
{
    reveal_strlit("./");
    assert(trim_start(path) == path && trim_end(path) == path);
    let p = "./"@ + path;
    assert(p[0] == '.' && !is_white('.'));
    assert(p.last() == path.last());
    assert(trim_start(p) == p && trim_end(p) == p);
    assert("./"@ =~= p.take(2));
    assert(p.subrange(2, p.len() as int) =~= path);
}

} // verus!
