//! Hook rules: their registry, which of them match an event, and how their results are read and
//! combined.

use vstd::prelude::*;
use crate::hooks::{
    neutral, opt_json, ContextView, DecisionView, HookContext, HookEvent, HookEventCategory,
    HookResult, HookSource, PermissionDecision, PermissionMode, ResultView, EVENT_COUNT,
};
use crate::json::{json_document, merge_fields, parse, texts, Json, JsonView};
use crate::lists::{copy_strings, reversed};
use crate::patterns::{hint_matches, matches_hint, matches_tool_name, tool_matches};
use crate::table::{lemma_lex_irreflexive, lemma_lex_transitive, Table};
use crate::text::{
    byte_count, decimal, law_one_occurrence_is_replaced, lemma_find_from, lemma_replace_behind,
    lex_lt, number, number_large, occurs_at, opt_str, pairs, replace, replaced, same, strs,
    text_bytes, trim, trimmed,
};

verus! {

// ── Reading what a hook printed ─────────────────────────────────────────────────────────────

/// The permission decision in the document that a hook printed.
pub open spec fn document_decision(doc: JsonView) -> Option<DecisionView> {
    match doc.text_field("permission_decision"@) {
        Some(d) => if d == "allow"@ {
            Some(DecisionView::Allow)
        } else if d == "deny"@ {
            Some(
                DecisionView::Deny(
                    match doc.text_field("permission_reason"@) {
                        Some(r) => r,
                        None => "Hook denied permission"@,
                    },
                ),
            )
        } else if d == "ask"@ {
            Some(
                DecisionView::Ask(
                    match doc.field("permission_suggestions"@) {
                        Some(JsonView::Array(a)) => texts(a),
                        _ => Seq::empty(),
                    },
                ),
            )
        } else {
            None
        },
        None => None,
    }
}

/// The permission mode with the given name.
pub open spec fn mode_named(name: Seq<char>) -> Option<PermissionMode> {
    if name == "default"@ {
        Some(PermissionMode::Default)
    } else if name == "plan"@ {
        Some(PermissionMode::Plan)
    } else if name == "auto"@ {
        Some(PermissionMode::Auto)
    } else if name == "acceptEdits"@ {
        Some(PermissionMode::AcceptEdits)
    } else if name == "bypassPermissions"@ {
        Some(PermissionMode::BypassPermissions)
    } else {
        None
    }
}

/// Whether the hook blocks, by its exit code alone.
pub open spec fn exit_blocks(exit_code: int) -> bool {
    exit_code == 2
}

/// Why the hook blocks, by its exit code alone.
pub open spec fn exit_reason(exit_code: int) -> Option<Seq<char>> {
    if exit_code == 2 {
        Some("Hook exited with code 2 (explicit block)"@)
    } else {
        None
    }
}

/// What a hook that printed the given document says.
pub open spec fn document_result(doc: JsonView, exit_code: int) -> ResultView {
    let decision = doc.text_field("decision"@);
    ResultView {
        block: if decision == Some("block"@) {
            true
        } else if decision == Some("allow"@) {
            false
        } else {
            exit_blocks(exit_code)
        },
        block_reason: if decision == Some("block"@) && doc.text_field("reason"@) is Some {
            doc.text_field("reason"@)
        } else if decision == Some("allow"@) {
            None
        } else {
            exit_reason(exit_code)
        },
        updated_input: doc.field("updatedInput"@),
        messages: Seq::empty(),
        stop_propagation: doc.field("continue"@) == Some(JsonView::Bool(false)),
        permission_decision: document_decision(doc),
        permission_mode_override: match doc.text_field("permission_mode"@) {
            Some(m) => mode_named(m),
            None => None,
        },
        continue_reason: doc.text_field("continue_reason"@),
        injected_context: doc.text_field("injected_context"@),
        retry: doc.field("retry"@) == Some(JsonView::Bool(true)),
        metadata: match doc.field("metadata"@) {
            Some(JsonView::Null) => None,
            m => m,
        },
    }
}

/// What a hook says that printed `printed`, which stands for `doc` where it is a JSON document.
pub open spec fn printed_result(
    printed: Seq<char>,
    doc: Option<JsonView>,
    exit_code: int,
) -> ResultView {
    let plain = ResultView {
        block: exit_blocks(exit_code),
        block_reason: exit_reason(exit_code),
        ..neutral()
    };
    if printed.len() == 0 {
        plain
    } else {
        match doc {
            Some(d) => document_result(d, exit_code),
            None => if exit_code == 0 {
                ResultView { injected_context: Some(printed), ..plain }
            } else {
                plain
            },
        }
    }
}

/// The decision in the document that a hook printed.
fn read_decision(doc: &Json) -> (r: Option<PermissionDecision>)
    ensures
        (match r {
            Some(d) => Some(d@),
            None => None,
        }) == document_decision(doc@),
{
    match doc.get_str("permission_decision") {
        Some(d) => {
            if same(d.as_str(), "allow") {
                Some(PermissionDecision::Allow)
            } else if same(d.as_str(), "deny") {
                let reason = match doc.get_str("permission_reason") {
                    Some(r) => r,
                    None => "Hook denied permission".to_owned(),
                };
                Some(PermissionDecision::Deny { reason })
            } else if same(d.as_str(), "ask") {
                Some(
                    PermissionDecision::Ask { suggestions: doc.get_texts("permission_suggestions") },
                )
            } else {
                None
            }
        },
        None => None,
    }
}

/// The permission mode with the given name.
fn read_mode(name: &str) -> (r: Option<PermissionMode>)
    ensures
        r == mode_named(name@),
{
    if same(name, "default") {
        Some(PermissionMode::Default)
    } else if same(name, "plan") {
        Some(PermissionMode::Plan)
    } else if same(name, "auto") {
        Some(PermissionMode::Auto)
    } else if same(name, "acceptEdits") {
        Some(PermissionMode::AcceptEdits)
    } else if same(name, "bypassPermissions") {
        Some(PermissionMode::BypassPermissions)
    } else {
        None
    }
}

/// What a hook says that printed `printed`, given the JSON document it stands for where it is one.
pub fn read_printed(printed: &str, doc: Option<&Json>, exit_code: i32) -> (r: HookResult)
    ensures
        r@ == printed_result(
            printed@,
            match doc {
                Some(d) => Some(d@),
                None => None,
            },
            exit_code as int,
        ),
{
    let mut result: HookResult = Default::default();
    if exit_code == 2 {
        result.block = true;
        result.block_reason = Some("Hook exited with code 2 (explicit block)".to_owned());
    }
    if printed.is_empty() {
        return result;
    }
    match doc {
        Some(d) => {
            match d.get_str("decision") {
                Some(decision) => {
                    if same(decision.as_str(), "block") {
                        result.block = true;
                        if let Some(reason) = d.get_str("reason") {
                            result.block_reason = Some(reason);
                        }
                    } else if same(decision.as_str(), "allow") {
                        result.block = false;
                        result.block_reason = None;
                    }
                },
                None => {},
            }
            result.permission_decision = read_decision(d);
            if let Some(mode) = d.get_str("permission_mode") {
                result.permission_mode_override = read_mode(mode.as_str());
            }
            if d.field_is("continue", false) {
                result.stop_propagation = true;
            }
            if let Some(updated) = d.get("updatedInput") {
                result.updated_input = Some(updated.copy());
            }
            if let Some(reason) = d.get_str("continue_reason") {
                result.continue_reason = Some(reason);
            }
            if let Some(context) = d.get_str("injected_context") {
                result.injected_context = Some(context);
            }
            if d.field_is("retry", true) {
                result.retry = true;
            }
            match d.get("metadata") {
                Some(Json::Null) => {},
                Some(m) => {
                    result.metadata = Some(m.copy());
                },
                None => {},
            }
            assert("allow"@ != "block"@) by {
                reveal_strlit("allow");
                reveal_strlit("block");
                assert("allow"@[0] != "block"@[0]);
            }
        },
        None => {
            if exit_code == 0 {
                result.injected_context = Some(printed.to_owned());
            }
        },
    }
    result
}

/// What a hook says that printed `stdout` and ended with `exit_code`.
pub fn parse_hook_output(stdout: &str, exit_code: i32) -> (r: HookResult)
    ensures
        r@ == printed_result(trim(stdout@), json_document(trim(stdout@)), exit_code as int),
{
    let printed = trimmed(stdout);
    match parse(printed.as_str()) {
        Some(doc) => read_printed(printed.as_str(), Some(&doc), exit_code),
        None => read_printed(printed.as_str(), None, exit_code),
    }
}

// ── Combining results ───────────────────────────────────────────────────────────────────────

/// How strict a decision is: a denial over a question, a question over a required approval, and
/// that over a permission.
pub open spec fn strictness(d: Option<DecisionView>) -> int {
    match d {
        None => 0,
        Some(DecisionView::Allow) => 1,
        Some(DecisionView::RequireApproval) => 2,
        Some(DecisionView::Ask(_)) => 3,
        Some(DecisionView::Deny(_)) => 4,
    }
}

/// The stricter of two decisions, and the earlier of two equally strict ones.
pub open spec fn stricter(a: Option<DecisionView>, b: Option<DecisionView>) -> Option<
    DecisionView,
> {
    if strictness(b) > strictness(a) {
        b
    } else {
        a
    }
}

/// The second of two optional values where it is there, else the first.
pub open spec fn latest<A>(a: Option<A>, b: Option<A>) -> Option<A> {
    match b {
        Some(x) => Some(x),
        None => a,
    }
}

/// Two contexts, one below the other.
pub open spec fn stacked(a: Option<Seq<char>>, b: Option<Seq<char>>) -> Option<Seq<char>> {
    match (a, b) {
        (Some(x), Some(y)) => Some(x + "\n"@ + y),
        (None, Some(y)) => Some(y),
        (x, None) => x,
    }
}

/// The data of two hooks: the fields of both where both are objects, else the earlier.
pub open spec fn merged_data(a: Option<JsonView>, b: Option<JsonView>) -> Option<JsonView> {
    match (a, b) {
        (Some(JsonView::Object(x)), Some(JsonView::Object(y))) => Some(
            JsonView::Object(x.union_prefer_right(y)),
        ),
        (Some(x), _) => Some(x),
        (None, y) => y,
    }
}

/// What two hooks say together, the second after the first.
pub open spec fn merged(a: ResultView, b: ResultView) -> ResultView {
    ResultView {
        block: a.block || b.block,
        block_reason: if b.block {
            latest(a.block_reason, b.block_reason)
        } else {
            a.block_reason
        },
        updated_input: latest(a.updated_input, b.updated_input),
        messages: a.messages + b.messages,
        stop_propagation: a.stop_propagation || b.stop_propagation,
        permission_decision: stricter(a.permission_decision, b.permission_decision),
        permission_mode_override: latest(a.permission_mode_override, b.permission_mode_override),
        continue_reason: latest(a.continue_reason, b.continue_reason),
        injected_context: stacked(a.injected_context, b.injected_context),
        retry: a.retry || b.retry,
        metadata: merged_data(a.metadata, b.metadata),
    }
}

fn rank_of(d: &Option<PermissionDecision>) -> (r: u8)
    ensures
        r == strictness(
            match d {
                Some(x) => Some(x@),
                None => None,
            },
        ),
{
    match d {
        None => 0,
        Some(PermissionDecision::Allow) => 1,
        Some(PermissionDecision::RequireApproval) => 2,
        Some(PermissionDecision::Ask { .. }) => 3,
        Some(PermissionDecision::Deny { .. }) => 4,
    }
}

fn stack(a: Option<String>, b: Option<String>) -> (r: Option<String>)
    ensures
        opt_str(r) == stacked(opt_str(a), opt_str(b)),
{
    match b {
        None => a,
        Some(y) => match a {
            None => Some(y),
            Some(x) => {
                let mut t = x;
                t.push_str("\n");
                t.push_str(y.as_str());
                Some(t)
            },
        },
    }
}

fn merge_data(a: Option<Json>, b: Option<Json>) -> (r: Option<Json>)
    ensures
        opt_json(r) == merged_data(opt_json(a), opt_json(b)),
{
    match a {
        None => b,
        Some(Json::Object(x)) => {
            let mut fields = x;
            if let Some(Json::Object(y)) = &b {
                merge_fields(&mut fields, y);
            }
            Some(Json::Object(fields))
        },
        Some(x) => Some(x),
    }
}

/// Adds what a further hook says to what the earlier ones said.
pub fn merge_result(combined: &mut HookResult, incoming: HookResult)
    ensures
        final(combined)@ == merged(old(combined)@, incoming@),
{
    let ghost before = combined@;
    if incoming.block {
        combined.block = true;
        if incoming.block_reason.is_some() {
            combined.block_reason = incoming.block_reason;
        }
    }
    if incoming.updated_input.is_some() {
        combined.updated_input = incoming.updated_input;
    }
    let mut messages = incoming.messages;
    let ghost first = combined.messages@;
    let ghost second = messages@;
    combined.messages.append(&mut messages);
    assert(strs(combined.messages@) == strs(first) + strs(second));
    if incoming.stop_propagation {
        combined.stop_propagation = true;
    }
    if rank_of(&incoming.permission_decision) > rank_of(&combined.permission_decision) {
        combined.permission_decision = incoming.permission_decision;
    }
    if incoming.permission_mode_override.is_some() {
        combined.permission_mode_override = incoming.permission_mode_override;
    }
    if incoming.continue_reason.is_some() {
        combined.continue_reason = incoming.continue_reason;
    }
    let context = combined.injected_context.take();
    combined.injected_context = stack(context, incoming.injected_context);
    if incoming.retry {
        combined.retry = true;
    }
    let data = combined.metadata.take();
    combined.metadata = merge_data(data, incoming.metadata);
}

/// What a list of hooks says together: each adds to the earlier ones, and none counts after one
/// that blocks or ends the propagation.
pub open spec fn run_result(results: Seq<ResultView>) -> ResultView
    decreases results.len(),
{
    if results.len() == 0 {
        neutral()
    } else {
        let before = run_result(results.drop_last());
        if before.block || before.stop_propagation {
            before
        } else {
            merged(before, results.last())
        }
    }
}

// ── Laws of combining ───────────────────────────────────────────────────────────────────────

/// Whether a decision is a denial.
pub open spec fn denies(d: Option<DecisionView>) -> bool {
    match d {
        Some(DecisionView::Deny(_)) => true,
        _ => false,
    }
}

/// A denial is never lost: whatever other hooks say before or after it, the combined decision is
/// a denial.
pub proof fn law_denial_wins(a: ResultView, b: ResultView)
    requires
        denies(a.permission_decision) || denies(b.permission_decision),
    ensures
        denies(merged(a, b).permission_decision),
{
}

/// A hook with nothing to say changes nothing.
pub proof fn law_neutral_result_changes_nothing(a: ResultView)
    ensures
        merged(a, neutral()) == a,
        merged(neutral(), a) == (ResultView {
            block_reason: if a.block {
                a.block_reason
            } else {
                None
            },
            ..a
        }),
{
    assert(a.messages + Seq::<Seq<char>>::empty() =~= a.messages);
    assert(Seq::<Seq<char>>::empty() + a.messages =~= a.messages);
}

/// Once a hook blocks or ends the propagation, the hooks after it have no effect.
pub proof fn law_run_stops(results: Seq<ResultView>, more: Seq<ResultView>)
    requires
        run_result(results).block || run_result(results).stop_propagation,
    ensures
        run_result(results + more) == run_result(results),
    decreases more.len(),
{
    if more.len() == 0 {
        assert(results + more =~= results);
    } else {
        law_run_stops(results, more.drop_last());
        assert((results + more).drop_last() =~= results + more.drop_last());
    }
}

/// The messages of all hooks are kept in the order in which the hooks ran, and a permission to
/// retry that one hook gives stands.
pub proof fn law_messages_and_retry_accumulate(a: ResultView, b: ResultView)
    ensures
        merged(a, b).messages == a.messages + b.messages,
        merged(a, b).retry == (a.retry || b.retry),
        merged(a, b).block == (a.block || b.block),
{
}

/// Decisions, messages and injected contexts combine in the same way however the hooks are
/// grouped.
pub proof fn law_merge_groups_freely(a: ResultView, b: ResultView, c: ResultView)
    ensures
        merged(merged(a, b), c).permission_decision == merged(
            a,
            merged(b, c),
        ).permission_decision,
        merged(merged(a, b), c).messages == merged(a, merged(b, c)).messages,
        merged(merged(a, b), c).injected_context == merged(a, merged(b, c)).injected_context,
{
    assert((a.messages + b.messages) + c.messages =~= a.messages + (b.messages + c.messages));
    if let (Some(x), Some(y), Some(z)) = (
        a.injected_context,
        b.injected_context,
        c.injected_context,
    ) {
        assert((x + "\n"@ + y) + "\n"@ + z =~= x + "\n"@ + (y + "\n"@ + z));
    }
}

// ── Rules ───────────────────────────────────────────────────────────────────────────────────

/// Default time limit of a hook, in seconds.
pub const DEFAULT_HOOK_TIMEOUT: u64 = 10;

/// Longest time limit of a hook, in seconds.
pub const MAX_HOOK_TIMEOUT: u64 = 300;

/// Longest command of a hook, in bytes.
pub const MAX_COMMAND_LENGTH: usize = 32768;

/// What a hook does.
pub enum HookAction {
    /// Runs a shell command, which gets the context as JSON on its standard input.
    Command { command: String, shell: Option<String>, timeout: u64 },
    /// Injects a prompt for the model.
    Prompt { prompt: String },
    /// Gives a permission decision: `allow`, `deny` or `ask`.
    Permission { decision: String, reason: Option<String>, suggestions: Vec<String> },
    /// Sends the context to a URL and reads the answer.
    Http {
        url: String,
        method: Option<String>,
        headers: Option<Vec<(String, String)>>,
        timeout: u64,
    },
    /// Calls a tool of an MCP server.
    McpTool { server: String, tool: String, arguments: Option<Json>, timeout: u64 },
    /// Hands a task to a subagent.
    Agent { name: String, task: Option<String>, max_iterations: Option<u32>, timeout: u64 },
}

/// The message about a time limit that is too long.
pub open spec fn timeout_fault(what: Seq<char>, timeout: u64) -> Option<Seq<char>> {
    if timeout > MAX_HOOK_TIMEOUT {
        Some(
            what + " hook timeout "@ + decimal(timeout as nat) + "s exceeds maximum "@ + decimal(
                MAX_HOOK_TIMEOUT as nat,
            ) + "s"@,
        )
    } else {
        None
    }
}

impl HookAction {
    /// What is wrong with the action.
    pub open spec fn fault(&self) -> Option<Seq<char>> {
        match self {
            HookAction::Command { command, shell: _, timeout } => if command@.len() == 0 {
                Some("Command hook has empty command string"@)
            } else if text_bytes(command@) > MAX_COMMAND_LENGTH {
                Some(
                    "Command hook exceeds max length ("@ + decimal(text_bytes(command@)) + " > "@
                        + decimal(MAX_COMMAND_LENGTH as nat) + " bytes)"@,
                )
            } else {
                timeout_fault("Command"@, *timeout)
            },
            HookAction::Prompt { prompt } => if prompt@.len() == 0 {
                Some("Prompt hook has empty prompt string"@)
            } else {
                None
            },
            HookAction::Permission { decision, reason: _, suggestions: _ } => if decision@
                == "allow"@ || decision@ == "deny"@ || decision@ == "ask"@ {
                None
            } else {
                Some(
                    "Permission hook has invalid decision '"@ + decision@
                        + "' (expected: allow, deny, ask)"@,
                )
            },
            HookAction::Http { url, method: _, headers: _, timeout } => if url@.len() == 0 {
                Some("Http hook has empty url"@)
            } else {
                timeout_fault("Http"@, *timeout)
            },
            HookAction::McpTool { server, tool, arguments: _, timeout } => if server@.len() == 0 {
                Some("McpTool hook has empty server name"@)
            } else if tool@.len() == 0 {
                Some("McpTool hook has empty tool name"@)
            } else {
                timeout_fault("McpTool"@, *timeout)
            },
            HookAction::Agent { name, task: _, max_iterations: _, timeout } => if name@.len()
                == 0 {
                Some("Agent hook has empty agent name"@)
            } else {
                timeout_fault("Agent"@, *timeout)
            },
        }
    }

    /// Whether the action can be registered, or what is wrong with it.
    pub fn validate(&self) -> (r: Result<(), String>)
        ensures
            match r {
                Ok(_) => self.fault() is None,
                Err(e) => self.fault() == Some(e@),
            },
    {
        match self {
            HookAction::Command { command, shell: _, timeout } => {
                if command.as_str().is_empty() {
                    return Err("Command hook has empty command string".to_owned());
                }
                let n: u128 = byte_count(command.as_str());
                if n > MAX_COMMAND_LENGTH as u128 {
                    let mut m = "Command hook exceeds max length (".to_owned();
                    m.push_str(number_large(n).as_str());
                    m.push_str(" > ");
                    m.push_str(number(MAX_COMMAND_LENGTH as u64).as_str());
                    m.push_str(" bytes)");
                    return Err(m);
                }
                check_timeout("Command", *timeout)
            },
            HookAction::Prompt { prompt } => {
                if prompt.as_str().is_empty() {
                    return Err("Prompt hook has empty prompt string".to_owned());
                }
                Ok(())
            },
            HookAction::Permission { decision, reason: _, suggestions: _ } => {
                if same(decision.as_str(), "allow") || same(decision.as_str(), "deny") || same(
                    decision.as_str(),
                    "ask",
                ) {
                    Ok(())
                } else {
                    let mut m = "Permission hook has invalid decision '".to_owned();
                    m.push_str(decision.as_str());
                    m.push_str("' (expected: allow, deny, ask)");
                    Err(m)
                }
            },
            HookAction::Http { url, method: _, headers: _, timeout } => {
                if url.as_str().is_empty() {
                    return Err("Http hook has empty url".to_owned());
                }
                check_timeout("Http", *timeout)
            },
            HookAction::McpTool { server, tool, arguments: _, timeout } => {
                if server.as_str().is_empty() {
                    return Err("McpTool hook has empty server name".to_owned());
                }
                if tool.as_str().is_empty() {
                    return Err("McpTool hook has empty tool name".to_owned());
                }
                check_timeout("McpTool", *timeout)
            },
            HookAction::Agent { name, task: _, max_iterations: _, timeout } => {
                if name.as_str().is_empty() {
                    return Err("Agent hook has empty agent name".to_owned());
                }
                check_timeout("Agent", *timeout)
            },
        }
    }
}

fn check_timeout(what: &str, timeout: u64) -> (r: Result<(), String>)
    ensures
        match r {
            Ok(_) => timeout_fault(what@, timeout) is None,
            Err(e) => timeout_fault(what@, timeout) == Some(e@),
        },
{
    if timeout > MAX_HOOK_TIMEOUT {
        let mut m = what.to_owned();
        m.push_str(" hook timeout ");
        m.push_str(number(timeout).as_str());
        m.push_str("s exceeds maximum ");
        m.push_str(number(MAX_HOOK_TIMEOUT).as_str());
        m.push_str("s");
        Err(m)
    } else {
        Ok(())
    }
}

/// A matcher and what to do where it matches.
pub struct HookRule {
    /// Compared with the tool name or the hint of the event; `*` and the empty text match all.
    pub matcher: String,
    /// What to do, in order.
    pub hooks: Vec<HookAction>,
}

/// Whether a matcher matches an event with the given context.
pub open spec fn hook_matches(m: Seq<char>, c: ContextView) -> bool {
    ||| m == "*"@ || m.len() == 0
    ||| c.event.category_of() == HookEventCategory::Tool && c.tool_name is Some && tool_matches(
        m,
        c.tool_name->0,
    )
    ||| c.matcher is Some && hint_matches(m, c.matcher->0)
}

/// Whether a matcher matches an event with the given context.
pub fn matches_hook(matcher: &str, context: &HookContext) -> (r: bool)
    ensures
        r == hook_matches(matcher@, context@),
{
    if same(matcher, "*") || matcher.is_empty() {
        return true;
    }
    if context.event.is_tool_event() {
        if let Some(tool) = &context.tool_name {
            if matches_tool_name(matcher, tool.as_str()) {
                return true;
            }
        }
    }
    match &context.matcher {
        Some(hint) => matches_hint(matcher, hint.as_str()),
        None => false,
    }
}

/// The actions without those that are faulty.
pub open spec fn faultless(actions: Seq<HookAction>) -> Seq<HookAction>
    decreases actions.len(),
{
    if actions.len() == 0 {
        Seq::empty()
    } else if actions[0].fault() is None {
        seq![actions[0]] + faultless(actions.drop_first())
    } else {
        faultless(actions.drop_first())
    }
}

/// Whether no action of any rule is faulty.
pub open spec fn all_sound(rules: Seq<HookRule>) -> bool {
    forall|i: int, k: int|
        0 <= i < rules.len() && 0 <= k < rules[i].hooks@.len() ==> (
        #[trigger] rules[i].hooks@[k]).fault() is None
}

proof fn lemma_faultless(actions: Seq<HookAction>)
    ensures
        forall|k: int|
            0 <= k < faultless(actions).len() ==> (#[trigger] faultless(actions)[k]).fault() is None,
    decreases actions.len(),
{
    if actions.len() > 0 {
        lemma_faultless(actions.drop_first());
        let rest = faultless(actions.drop_first());
        if actions[0].fault() is None {
            assert forall|k: int| 0 <= k < faultless(actions).len() implies (
            #[trigger] faultless(actions)[k]).fault() is None by {
                if k > 0 {
                    assert(faultless(actions)[k] == rest[k - 1]);
                }
            }
        }
    }
}

proof fn lemma_screened_sound(given: Seq<HookRule>, kept: Seq<HookRule>)
    requires
        screened(given, kept),
    ensures
        all_sound(kept),
{
    assert forall|i: int, k: int|
        0 <= i < kept.len() && 0 <= k < kept[i].hooks@.len() implies (
    #[trigger] kept[i].hooks@[k]).fault() is None by {
        lemma_faultless(given[i].hooks@);
    }
}

/// Whether `kept` are the given rules without the actions that are faulty.
pub open spec fn screened(given: Seq<HookRule>, kept: Seq<HookRule>) -> bool {
    &&& kept.len() == given.len()
    &&& forall|i: int|
        0 <= i < given.len() ==> (#[trigger] kept[i]).matcher@ == given[i].matcher@
            && kept[i].hooks@ == faultless(given[i].hooks@)
}

fn faultless_actions(actions: Vec<HookAction>) -> (r: Vec<HookAction>)
    ensures
        r@ == faultless(actions@),
{
    let ghost all = actions@;
    let mut rest = actions;
    let mut out: Vec<HookAction> = Vec::new();
    assert(out@.reverse() =~= faultless(all.subrange(all.len() as int, all.len() as int)));
    while rest.len() > 0
        invariant
            rest@ == all.take(rest@.len() as int),
            rest@.len() <= all.len(),
            out@.reverse() == faultless(all.subrange(rest@.len() as int, all.len() as int)),
        decreases rest.len(),
    {
        let ghost n = rest@.len() as int;
        if let Some(a) = rest.pop() {
            let ghost tail = all.subrange(n - 1, all.len() as int);
            assert(rest@ =~= all.take(n - 1));
            assert(tail[0] == a);
            assert(tail.drop_first() =~= all.subrange(n, all.len() as int));
            if a.validate().is_ok() {
                let ghost before = out@;
                out.push(a);
                assert(out@.reverse() =~= seq![a] + before.reverse());
            }
        }
    }
    assert(all.subrange(0, all.len() as int) =~= all);
    reversed(out)
}

fn without_faulty(rules: Vec<HookRule>) -> (r: Vec<HookRule>)
    ensures
        screened(rules@, r@),
{
    let ghost all = rules@;
    let mut rest = rules;
    let mut out: Vec<HookRule> = Vec::new();
    while rest.len() > 0
        invariant
            rest@ == all.take(rest@.len() as int),
            rest@.len() <= all.len(),
            out@.len() == all.len() - rest@.len(),
            forall|k: int|
                0 <= k < out@.len() ==> (#[trigger] out@[k]).matcher@ == all[all.len() - 1
                    - k].matcher@ && out@[k].hooks@ == faultless(all[all.len() - 1 - k].hooks@),
        decreases rest.len(),
    {
        let ghost n = rest@.len() as int;
        if let Some(rule) = rest.pop() {
            assert(rest@ =~= all.take(n - 1));
            assert(rule == all[n - 1]);
            out.push(HookRule { matcher: rule.matcher, hooks: faultless_actions(rule.hooks) });
        }
    }
    let r = reversed(out);
    assert forall|i: int| 0 <= i < all.len() implies (#[trigger] r@[i]).matcher@ == all[i].matcher@
        && r@[i].hooks@ == faultless(all[i].hooks@) by {
        assert(r@[i] == out@[all.len() - 1 - i]);
    }
    r
}

/// The hook rules of one source, by event.
pub struct HooksDefinition {
    rules: Vec<Vec<HookRule>>,
}

impl HooksDefinition {
    #[verifier::type_invariant]
    spec fn one_list_per_event(&self) -> bool {
        &&& self.rules@.len() == EVENT_COUNT
        &&& forall|i: int| 0 <= i < self.rules@.len() ==> all_sound(#[trigger] self.rules@[i]@)
    }

    /// The rules for an event.
    pub closed spec fn rules_of(&self, event: HookEvent) -> Seq<HookRule> {
        self.rules@[event.position()]@
    }

    /// The rules for an event.
    pub fn rules_for(&self, event: HookEvent) -> (r: &Vec<HookRule>)
        ensures
            r@ == self.rules_of(event),
            all_sound(r@),
    {
        proof {
            use_type_invariant(self);
            lemma_position_bound(event);
        }
        &self.rules[event.index()]
    }

    /// Whether there is no rule for any event.
    pub open spec fn without_rules(&self) -> bool {
        forall|e: HookEvent| #[trigger] self.rules_of(e).len() == 0
    }

    /// Whether there is no rule for any event.
    pub fn is_empty(&self) -> (r: bool)
        ensures
            r == self.without_rules(),
    {
        proof {
            use_type_invariant(self);
        }
        let mut i: usize = 0;
        while i < self.rules.len()
            invariant
                self.one_list_per_event(),
                i <= self.rules.len(),
                forall|k: int| 0 <= k < i ==> (#[trigger] self.rules@[k])@.len() == 0,
            decreases self.rules.len() - i,
        {
            if self.rules[i].len() > 0 {
                proof {
                    let e = event_at(i as int);
                    lemma_event_at(i as int);
                    assert(self.rules_of(e).len() > 0);
                }
                return false;
            }
            i = i + 1;
        }
        assert forall|e: HookEvent| #[trigger] self.rules_of(e).len() == 0 by {
            lemma_position_bound(e);
        }
        true
    }

    /// The number of rules for the events whose position is below `n`.
    pub open spec fn rules_below(&self, n: nat) -> nat
        decreases n,
    {
        if n == 0 {
            0
        } else {
            self.rules_below((n - 1) as nat) + self.rules_of(event_at(n - 1)).len()
        }
    }

    /// The number of rules for all events.
    pub open spec fn rule_count(&self) -> nat {
        self.rules_below(EVENT_COUNT as nat)
    }

    /// The number of rules for all events.
    pub fn count(&self) -> (r: usize)
        requires
            self.rule_count() <= usize::MAX,
        ensures
            r == self.rule_count(),
    {
        proof {
            use_type_invariant(self);
        }
        let mut n: usize = 0;
        let mut i: usize = 0;
        while i < self.rules.len()
            invariant
                self.one_list_per_event(),
                self.rule_count() <= usize::MAX,
                i <= self.rules.len(),
                n == self.rules_below(i as nat),
            decreases self.rules.len() - i,
        {
            proof {
                lemma_event_at(i as int);
                lemma_rules_below_grow(*self, (i + 1) as nat, EVENT_COUNT as nat);
            }
            n = n + self.rules[i].len();
            i = i + 1;
        }
        n
    }

    /// Adds rules for an event behind those it has, without their actions that are faulty.
    pub fn add_rules(&mut self, event: HookEvent, rules: Vec<HookRule>)
        ensures
            old(self).rules_of(event).is_prefix_of(final(self).rules_of(event)),
            screened(
                rules@,
                final(self).rules_of(event).subrange(
                    old(self).rules_of(event).len() as int,
                    final(self).rules_of(event).len() as int,
                ),
            ),
            forall|e: HookEvent|
                e != event ==> #[trigger] final(self).rules_of(e) == old(self).rules_of(e),
            final(self).rule_count() == old(self).rule_count() + rules@.len(),
    {
        proof {
            use_type_invariant(&*self);
            lemma_position_bound(event);
        }
        let k: usize = event.index();
        let mut lists: Vec<Vec<HookRule>> = no_rules();
        core::mem::swap(&mut self.rules, &mut lists);
        let ghost before = lists@;
        let mut added = without_faulty(rules);
        let ghost kept = added@;
        proof {
            lemma_screened_sound(rules@, kept);
        }
        lists.push(Vec::new());
        let mut list = lists.swap_remove(k);
        assert(list@ == before[k as int]@);
        list.append(&mut added);
        lists.set(k, list);
        assert(lists@ =~= before.update(k as int, list));
        assert(list@ =~= before[k as int]@ + kept);
        assert forall|i: int| 0 <= i < lists@.len() implies all_sound(#[trigger] lists@[i]@) by {
            assert(all_sound(before[i]@));
        }
        self.rules = lists;
        assert(self.rules_of(event) =~= old(self).rules_of(event) + kept);
        assert(self.rules_of(event).subrange(
            old(self).rules_of(event).len() as int,
            self.rules_of(event).len() as int,
        ) =~= kept);
        assert forall|e: HookEvent| e != event implies #[trigger] self.rules_of(e) == old(
            self,
        ).rules_of(e) by {
            if e.position() == event.position() {
                e.lemma_positions_differ(event);
            }
        }
        proof {
            lemma_rules_grow_for(*old(self), *self, event, EVENT_COUNT as nat);
        }
    }

    /// Adds the rules of another definition behind those that are there.
    pub fn merge(&mut self, other: HooksDefinition)
        ensures
            forall|e: HookEvent| #[trigger]
                final(self).rules_of(e) == old(self).rules_of(e) + other.rules_of(e),
            final(self).rule_count() == old(self).rule_count() + other.rule_count(),
    {
        proof {
            use_type_invariant(&*self);
            use_type_invariant(&other);
        }
        let mut mine: Vec<Vec<HookRule>> = no_rules();
        core::mem::swap(&mut self.rules, &mut mine);
        let ghost a = mine@;
        let mut theirs = other.rules;
        let ghost b = theirs@;
        let mut out: Vec<Vec<HookRule>> = Vec::new();
        while theirs.len() > 0
            invariant
                a.len() == EVENT_COUNT,
                b.len() == EVENT_COUNT,
                forall|k: int| 0 <= k < a.len() ==> all_sound(#[trigger] a[k]@),
                forall|k: int| 0 <= k < b.len() ==> all_sound(#[trigger] b[k]@),
                mine@ == a.take(theirs@.len() as int),
                theirs@ == b.take(theirs@.len() as int),
                theirs@.len() <= EVENT_COUNT,
                out.len() == EVENT_COUNT - theirs.len(),
                forall|k: int|
                    0 <= k < out.len() ==> (#[trigger] out@[k])@ == a[EVENT_COUNT - 1 - k]@
                        + b[EVENT_COUNT - 1 - k]@,
            decreases theirs.len(),
        {
            let ghost n = theirs@.len() as int;
            match (mine.pop(), theirs.pop()) {
                (Some(x), Some(y)) => {
                    assert(x == a[n - 1] && y == b[n - 1]);
                    let mut list = x;
                    let mut added = y;
                    list.append(&mut added);
                    out.push(list);
                },
                _ => {},
            }
            assert(mine@ =~= a.take(n - 1));
            assert(theirs@ =~= b.take(n - 1));
        }
        let merged_lists = reversed(out);
        assert forall|i: int| 0 <= i < merged_lists@.len() implies all_sound(
            #[trigger] merged_lists@[i]@,
        ) by {
            assert(merged_lists@[i]@ == a[i]@ + b[i]@);
            assert(all_sound(a[i]@) && all_sound(b[i]@));
        }
        self.rules = merged_lists;
        assert forall|e: HookEvent| #[trigger] self.rules_of(e) == old(self).rules_of(e)
            + other.rules_of(e) by {
            lemma_position_bound(e);
        }
        proof {
            lemma_rules_add_up(*old(self), other, *self, EVENT_COUNT as nat);
        }
    }
}

proof fn lemma_rules_below_grow(d: HooksDefinition, m: nat, n: nat)
    requires
        m <= n,
    ensures
        d.rules_below(m) <= d.rules_below(n),
    decreases n,
{
    if m < n {
        lemma_rules_below_grow(d, m, (n - 1) as nat);
    }
}

proof fn lemma_rules_grow_for(before: HooksDefinition, after: HooksDefinition, event: HookEvent, n: nat)
    requires
        n <= EVENT_COUNT,
        forall|e: HookEvent| e != event ==> #[trigger] after.rules_of(e) == before.rules_of(e),
    ensures
        after.rules_below(n) - before.rules_below(n) == if event.position() < n {
            after.rules_of(event).len() - before.rules_of(event).len()
        } else {
            0
        },
    decreases n,
{
    if n > 0 {
        lemma_rules_grow_for(before, after, event, (n - 1) as nat);
        lemma_event_at(n - 1);
        if event.position() == n - 1 {
            if event_at(n - 1) != event {
                event.lemma_positions_differ(event_at(n - 1));
            }
        } else {
            assert(after.rules_of(event_at(n - 1)) == before.rules_of(event_at(n - 1)));
        }
    }
}

proof fn lemma_rules_add_up(a: HooksDefinition, b: HooksDefinition, both: HooksDefinition, n: nat)
    requires
        forall|e: HookEvent| #[trigger] both.rules_of(e) == a.rules_of(e) + b.rules_of(e),
    ensures
        both.rules_below(n) == a.rules_below(n) + b.rules_below(n),
    decreases n,
{
    if n > 0 {
        lemma_rules_add_up(a, b, both, (n - 1) as nat);
        assert(both.rules_of(event_at(n - 1)) == a.rules_of(event_at(n - 1)) + b.rules_of(
            event_at(n - 1),
        ));
    }
}

proof fn lemma_no_rules_below(d: HooksDefinition, n: nat)
    requires
        d.without_rules(),
    ensures
        d.rules_below(n) == 0,
    decreases n,
{
    if n > 0 {
        lemma_no_rules_below(d, (n - 1) as nat);
        assert(d.rules_of(event_at(n - 1)).len() == 0);
    }
}

/// Each event stands at one position of its own, so that the count of rules takes the rules of every
/// event once.
pub proof fn law_each_event_is_counted_once(event: HookEvent)
    ensures
        0 <= event.position() < EVENT_COUNT,
        event_at(event.position()) == event,
{
    lemma_event_at(event.position());
    if event_at(event.position()) != event {
        event.lemma_positions_differ(event_at(event.position()));
    }
}

/// The event at a position.
pub open spec fn event_at(i: int) -> HookEvent {
    choose|e: HookEvent| e.position() == i
}

proof fn lemma_event_at(i: int)
    requires
        0 <= i < EVENT_COUNT,
    ensures
        event_at(i).position() == i,
{
    assert(HookEvent::PreToolUse.position() == 0);
    assert(HookEvent::PostToolUse.position() == 1);
    assert(HookEvent::PostToolUseFailure.position() == 2);
    assert(HookEvent::PermissionRequest.position() == 3);
    assert(HookEvent::PermissionDenied.position() == 4);
    assert(HookEvent::SessionStart.position() == 5);
    assert(HookEvent::SessionEnd.position() == 6);
    assert(HookEvent::Stop.position() == 7);
    assert(HookEvent::Notification.position() == 8);
    assert(HookEvent::UserPromptSubmit.position() == 9);
    assert(HookEvent::PreCompact.position() == 10);
    assert(HookEvent::PostCompact.position() == 11);
    assert(HookEvent::ConfigChange.position() == 12);
    assert(HookEvent::InstructionsLoaded.position() == 13);
    assert(HookEvent::PostToolBatch.position() == 14);
    assert(HookEvent::SubagentStart.position() == 15);
    assert(HookEvent::SubagentStop.position() == 16);
    assert(HookEvent::TaskCreated.position() == 17);
    assert(HookEvent::TaskCompleted.position() == 18);
    assert(HookEvent::StopFailure.position() == 19);
    assert(HookEvent::PluginLoaded.position() == 20);
    assert(HookEvent::PluginDisabled.position() == 21);
    assert(HookEvent::TaskTimeout.position() == 22);
    assert(HookEvent::TaskCancelled.position() == 23);
    assert(HookEvent::SubagentCancelled.position() == 24);
    assert(HookEvent::PostMemoryWrite.position() == 25);
    assert(HookEvent::MemoryLayerChange.position() == 26);
    assert(HookEvent::SkillCandidateDetected.position() == 27);
    assert(HookEvent::SkillLifecycleTransition.position() == 28);
    assert(HookEvent::SkillHealthCheck.position() == 29);
    assert(HookEvent::SkillPatchApplied.position() == 30);
    assert(HookEvent::SkillMergeApplied.position() == 31);
    assert(HookEvent::RulePromoted.position() == 32);
}

proof fn lemma_position_bound(e: HookEvent)
    ensures
        0 <= e.position() < EVENT_COUNT,
{
}

/// One empty list for each event.
fn no_rules() -> (r: Vec<Vec<HookRule>>)
    ensures
        r.len() == EVENT_COUNT,
        forall|k: int| 0 <= k < EVENT_COUNT ==> (#[trigger] r@[k])@.len() == 0,
{
    let mut r: Vec<Vec<HookRule>> = Vec::new();
    while r.len() < EVENT_COUNT
        invariant
            r.len() <= EVENT_COUNT,
            forall|k: int| 0 <= k < r.len() ==> (#[trigger] r@[k])@.len() == 0,
        decreases EVENT_COUNT - r.len(),
    {
        r.push(Vec::new());
    }
    r
}

impl Default for HooksDefinition {
    fn default() -> (r: HooksDefinition)
        ensures
            r.without_rules(),
            r.rule_count() == 0,
    {
        let r = HooksDefinition { rules: no_rules() };
        assert forall|e: HookEvent| #[trigger] r.rules_of(e).len() == 0 by {
            lemma_position_bound(e);
        }
        proof {
            lemma_no_rules_below(r, EVENT_COUNT as nat);
        }
        r
    }
}

// ── Registry ────────────────────────────────────────────────────────────────────────────────

/// The rules of a source and the directory they came from.
pub struct RegisteredHook {
    pub definition: HooksDefinition,
    pub source_dir: String,
}

/// The source of rules.
pub enum SourceView {
    UserConfig,
    Plugin(Seq<char>),
    Skill(Seq<char>),
}

/// What a source is.
pub open spec fn source_view(s: HookSource) -> SourceView {
    match s {
        HookSource::UserConfig => SourceView::UserConfig,
        HookSource::Plugin(n) => SourceView::Plugin(n@),
        HookSource::Skill(n) => SourceView::Skill(n@),
    }
}

/// Whether the rules of `a` run before those of `b`: the user's first, then plugins and then
/// skills, each by name.
pub open spec fn runs_before(a: SourceView, b: SourceView) -> bool {
    match (a, b) {
        (SourceView::UserConfig, SourceView::UserConfig) => false,
        (SourceView::UserConfig, _) => true,
        (SourceView::Plugin(x), SourceView::Plugin(y)) => lex_lt(x, y),
        (SourceView::Plugin(_), SourceView::Skill(_)) => true,
        (SourceView::Skill(x), SourceView::Skill(y)) => lex_lt(x, y),
        _ => false,
    }
}

/// Whether a list holds the sources of a registry in the order in which they run.
pub open spec fn in_run_order(
    order: Seq<SourceView>,
    sources: Map<SourceView, RegisteredHook>,
) -> bool {
    &&& forall|i: int, j: int|
        0 <= i < j < order.len() ==> runs_before(#[trigger] order[i], #[trigger] order[j])
    &&& forall|s: SourceView| #[trigger] sources.contains_key(s) <==> order.contains(s)
}

/// The hook rules of all sources.
pub struct HookRegistry {
    user: Option<RegisteredHook>,
    plugins: Table<RegisteredHook>,
    skills: Table<RegisteredHook>,
}

impl HookRegistry {
    /// What is registered.
    pub closed spec fn sources(&self) -> Map<SourceView, RegisteredHook> {
        Map::new(
            |s: SourceView|
                match s {
                    SourceView::UserConfig => self.user is Some,
                    SourceView::Plugin(n) => self.plugins@.contains_key(n),
                    SourceView::Skill(n) => self.skills@.contains_key(n),
                },
            |s: SourceView|
                match s {
                    SourceView::UserConfig => self.user->0,
                    SourceView::Plugin(n) => self.plugins@[n],
                    SourceView::Skill(n) => self.skills@[n],
                },
        )
    }

    proof fn lemma_nothing_registered(&self)
        requires
            self.user is None,
            self.plugins@ == Map::<Seq<char>, RegisteredHook>::empty(),
            self.skills@ == Map::<Seq<char>, RegisteredHook>::empty(),
        ensures
            self.sources() == Map::<SourceView, RegisteredHook>::empty(),
    {
        assert forall|s: SourceView| !#[trigger] self.sources().contains_key(s) by {
            match s {
                SourceView::UserConfig => {},
                SourceView::Plugin(n) => {
                    assert(!self.plugins@.contains_key(n));
                },
                SourceView::Skill(n) => {
                    assert(!self.skills@.contains_key(n));
                },
            }
        }
        assert(self.sources() =~= Map::<SourceView, RegisteredHook>::empty());
    }

    /// A registry without rules.
    pub fn new() -> (r: HookRegistry)
        ensures
            r.sources() == Map::<SourceView, RegisteredHook>::empty(),
    {
        let plugins: Table<RegisteredHook> = Table::new();
        let skills: Table<RegisteredHook> = Table::new();
        let r = HookRegistry { user: None, plugins, skills };
        proof {
            r.lemma_nothing_registered();
        }
        r
    }

    /// Registers the rules of a skill in place of those it had; nothing happens without rules.
    pub fn register(&mut self, skill_name: &str, skill_dir: &str, definition: HooksDefinition)
        ensures
            registered(
                old(self).sources(),
                final(self).sources(),
                SourceView::Skill(skill_name@),
                skill_dir@,
                definition,
            ),
    {
        if definition.is_empty() {
            return;
        }
        let entry = RegisteredHook { definition, source_dir: skill_dir.to_owned() };
        self.skills.insert(skill_name.to_owned(), entry);
        assert(self.sources() =~= old(self).sources().insert(
            SourceView::Skill(skill_name@),
            entry,
        ));
    }

    /// Registers the rules of a plugin in place of those it had; nothing happens without rules.
    pub fn register_plugin(&mut self, name: &str, dir: &str, definition: HooksDefinition)
        ensures
            registered(
                old(self).sources(),
                final(self).sources(),
                SourceView::Plugin(name@),
                dir@,
                definition,
            ),
    {
        if definition.is_empty() {
            return;
        }
        let entry = RegisteredHook { definition, source_dir: dir.to_owned() };
        self.plugins.insert(name.to_owned(), entry);
        assert(self.sources() =~= old(self).sources().insert(SourceView::Plugin(name@), entry));
    }

    /// Registers the rules of the user in place of those there were; nothing happens without
    /// rules.
    pub fn register_user_hooks(&mut self, definition: HooksDefinition)
        ensures
            registered(
                old(self).sources(),
                final(self).sources(),
                SourceView::UserConfig,
                Seq::empty(),
                definition,
            ),
    {
        if definition.is_empty() {
            return;
        }
        let entry = RegisteredHook { definition, source_dir: String::new() };
        self.user = Some(entry);
        assert(self.sources() =~= old(self).sources().insert(SourceView::UserConfig, entry));
    }

    /// Removes the rules of a source and tells whether there were any.
    pub fn unregister(&mut self, source: &HookSource) -> (r: bool)
        ensures
            r == old(self).sources().contains_key(source_view(*source)),
            final(self).sources() == old(self).sources().remove(source_view(*source)),
    {
        let r = match source {
            HookSource::UserConfig => self.user.take().is_some(),
            HookSource::Plugin(n) => self.plugins.remove(n.as_str()).is_some(),
            HookSource::Skill(n) => self.skills.remove(n.as_str()).is_some(),
        };
        assert(self.sources() =~= old(self).sources().remove(source_view(*source)));
        r
    }

    /// Removes the rules of the user and tells whether there were any.
    pub fn clear_user_hooks(&mut self) -> (r: bool)
        ensures
            r == old(self).sources().contains_key(SourceView::UserConfig),
            final(self).sources() == old(self).sources().remove(SourceView::UserConfig),
    {
        let r = self.user.take().is_some();
        assert(self.sources() =~= old(self).sources().remove(SourceView::UserConfig));
        r
    }

    /// Whether nothing is registered.
    pub fn is_empty(&self) -> (r: bool)
        ensures
            r == (forall|s: SourceView| !#[trigger] self.sources().contains_key(s)),
    {
        let order = self.run_order();
        let ghost views = source_views(order@);
        if order.len() == 0 {
            assert forall|s: SourceView| !#[trigger] self.sources().contains_key(s) by {
                assert(!views.contains(s));
            }
            true
        } else {
            assert(views.contains(views[0]));
            assert(self.sources().contains_key(views[0]));
            false
        }
    }

    /// The sources in the order in which their rules run.
    pub fn run_order(&self) -> (r: Vec<HookSource>)
        ensures
            in_run_order(source_views(r@), self.sources()),
    {
        let plugins = self.plugins.sorted_keys();
        let skills = self.skills.sorted_keys();
        let ghost ps = strs(plugins@);
        let ghost ss = strs(skills@);
        let mut out: Vec<HookSource> = Vec::new();
        if self.user.is_some() {
            out.push(HookSource::UserConfig);
        }
        let ghost head = source_views(out@);
        assert(head.len() == if self.user is Some {
            1nat
        } else {
            0nat
        });
        assert(forall|k: int| 0 <= k < head.len() ==> #[trigger] head[k] == SourceView::UserConfig);
        let mut i: usize = 0;
        while i < plugins.len()
            invariant
                ps == strs(plugins@),
                i <= plugins.len(),
                source_views(out@) == head + Seq::new(i as nat, |k: int| SourceView::Plugin(ps[k])),
            decreases plugins.len() - i,
        {
            let ghost prev = out@;
            out.push(HookSource::Plugin(plugins[i].clone()));
            assert(source_views(out@) =~= source_views(prev).push(SourceView::Plugin(ps[i as int])));
            i = i + 1;
        }
        let ghost mid = source_views(out@);
        let mut j: usize = 0;
        while j < skills.len()
            invariant
                ss == strs(skills@),
                j <= skills.len(),
                source_views(out@) == mid + Seq::new(j as nat, |k: int| SourceView::Skill(ss[k])),
            decreases skills.len() - j,
        {
            let ghost prev = out@;
            out.push(HookSource::Skill(skills[j].clone()));
            assert(source_views(out@) =~= source_views(prev).push(SourceView::Skill(ss[j as int])));
            j = j + 1;
        }
        proof {
            let views = source_views(out@);
            let h = head.len() as int;
            let p = ps.len() as int;
            assert forall|a: int, b: int| 0 <= a < b < views.len() implies runs_before(
                #[trigger] views[a],
                #[trigger] views[b],
            ) by {
                if a >= h && b < h + p {
                    assert(lex_lt(ps[a - h], ps[b - h]));
                } else if a >= h + p {
                    assert(lex_lt(ss[a - h - p], ss[b - h - p]));
                }
            }
            assert forall|s: SourceView| #[trigger] self.sources().contains_key(s)
                <==> views.contains(s) by {
                match s {
                    SourceView::UserConfig => {
                        if self.user is Some {
                            assert(views[0] == s);
                        }
                        if views.contains(s) {
                            let k = choose|k: int| 0 <= k < views.len() && views[k] == s;
                            assert(k < h);
                        }
                    },
                    SourceView::Plugin(n) => {
                        assert(ps.to_set().contains(n) == self.plugins@.contains_key(n));
                        if ps.contains(n) {
                            let k = choose|k: int| 0 <= k < ps.len() && ps[k] == n;
                            assert(views[h + k] == s);
                        }
                        if views.contains(s) {
                            let k = choose|k: int| 0 <= k < views.len() && views[k] == s;
                            assert(ps[k - h] == n);
                        }
                    },
                    SourceView::Skill(n) => {
                        assert(ss.to_set().contains(n) == self.skills@.contains_key(n));
                        if ss.contains(n) {
                            let k = choose|k: int| 0 <= k < ss.len() && ss[k] == n;
                            assert(views[h + p + k] == s);
                        }
                        if views.contains(s) {
                            let k = choose|k: int| 0 <= k < views.len() && views[k] == s;
                            assert(ss[k - h - p] == n);
                        }
                    },
                }
            }
        }
        out
    }

    /// What is registered for a source.
    fn entry(&self, source: &HookSource) -> (r: Option<&RegisteredHook>)
        ensures
            match r {
                Some(e) => self.sources().contains_key(source_view(*source))
                    && self.sources()[source_view(*source)] == *e,
                None => !self.sources().contains_key(source_view(*source)),
            },
    {
        match source {
            HookSource::UserConfig => match &self.user {
                Some(e) => Some(e),
                None => None,
            },
            HookSource::Plugin(n) => self.plugins.get(n.as_str()),
            HookSource::Skill(n) => self.skills.get(n.as_str()),
        }
    }

    /// Whether some source has rules for an event.
    pub fn has_hooks_for(&self, event: HookEvent) -> (r: bool)
        ensures
            r == exists|s: SourceView| #[trigger]
                self.sources().contains_key(s) && self.sources()[s].definition.rules_of(
                    event,
                ).len() > 0,
    {
        let order = self.run_order();
        let ghost views = source_views(order@);
        let mut i: usize = 0;
        while i < order.len()
            invariant
                views == source_views(order@),
                in_run_order(views, self.sources()),
                i <= order.len(),
                forall|k: int|
                    0 <= k < i ==> self.sources()[#[trigger] views[k]].definition.rules_of(
                        event,
                    ).len() == 0,
            decreases order.len() - i,
        {
            assert(views[i as int] == source_view(order@[i as int]));
            assert(views.contains(views[i as int]));
            if let Some(e) = self.entry(&order[i]) {
                if e.definition.rules_for(event).len() > 0 {
                    assert(self.sources().contains_key(views[i as int]));
                    return true;
                }
            }
            i = i + 1;
        }
        assert forall|s: SourceView| #[trigger]
            self.sources().contains_key(s) implies self.sources()[s].definition.rules_of(
            event,
        ).len() == 0 by {
            let k = choose|k: int| 0 <= k < views.len() && views[k] == s;
            assert(views[k] == s);
        }
        false
    }

    /// The sources in the order in which they run, each with its label and the number of its
    /// rules.
    pub fn list_sources(&self) -> (r: Vec<(String, usize)>)
        requires
            forall|s: SourceView| #[trigger]
                self.sources().contains_key(s) ==> self.sources()[s].definition.rule_count()
                    <= usize::MAX,
        ensures
            exists|order: Seq<SourceView>| #[trigger]
                in_run_order(order, self.sources()) && r@.len() == order.len() && forall|i: int|
                    0 <= i < order.len() ==> (#[trigger] r@[i]).0@ == source_label(order[i])
                        && r@[i].1 == self.sources()[order[i]].definition.rule_count(),
    {
        let order = self.run_order();
        let ghost views = source_views(order@);
        let mut out: Vec<(String, usize)> = Vec::new();
        let mut i: usize = 0;
        while i < order.len()
            invariant
                forall|s: SourceView| #[trigger]
                    self.sources().contains_key(s) ==> self.sources()[s].definition.rule_count()
                        <= usize::MAX,
                views == source_views(order@),
                in_run_order(views, self.sources()),
                i <= order.len(),
                out.len() == i,
                forall|k: int|
                    0 <= k < i ==> (#[trigger] out@[k]).0@ == source_label(views[k]) && out@[k].1
                        == self.sources()[views[k]].definition.rule_count(),
            decreases order.len() - i,
        {
            assert(views[i as int] == source_view(order@[i as int]));
            assert(views.contains(views[i as int]));
            assert(self.sources().contains_key(views[i as int]));
            let n: usize = match self.entry(&order[i]) {
                Some(e) => e.definition.count(),
                None => 0,
            };
            out.push((order[i].label(), n));
            i = i + 1;
        }
        out
    }

    /// What is to be done for an event, in order: the actions of the matching rules of each
    /// source, with the directory of the source.
    pub fn plan<'a>(&'a self, context: &HookContext) -> (r: Vec<PlannedAction<'a>>)
        ensures
            exists|order: Seq<SourceView>| #[trigger]
                in_run_order(order, self.sources()) && planned_views(r@) == plan_of(
                    order,
                    self.sources(),
                    context@,
                ),
    {
        let order = self.run_order();
        let ghost views = source_views(order@);
        let ghost c = context@;
        let mut out: Vec<PlannedAction<'a>> = Vec::new();
        let mut i: usize = 0;
        assert(views.take(0) =~= Seq::<SourceView>::empty());
        assert(planned_views(out@) =~= Seq::<(Seq<char>, HookAction)>::empty());
        while i < order.len()
            invariant
                c == context@,
                views == source_views(order@),
                in_run_order(views, self.sources()),
                i <= order.len(),
                planned_views(out@) == plan_of(views.take(i as int), self.sources(), c),
            decreases order.len() - i,
        {
            let ghost before_source = planned_views(out@);
            proof {
                assert(views[i as int] == source_view(order@[i as int]));
                assert(views.contains(views[i as int]));
                assert(self.sources().contains_key(views[i as int]));
                let t = views.take(i + 1);
                assert(t.drop_last() =~= views.take(i as int));
                assert(t.last() == views[i as int]);
            }
            if let Some(e) = self.entry(&order[i]) {
                let rules = e.definition.rules_for(context.event);
                let mut k: usize = 0;
                assert(rules@.take(0) =~= Seq::<HookRule>::empty());
                assert(before_source + with_dir(
                    e.source_dir@,
                    Seq::<HookAction>::empty(),
                ) =~= before_source);
                while k < rules.len()
                    invariant
                        c == context@,
                        k <= rules.len(),
                        planned_views(out@) == before_source + with_dir(
                            e.source_dir@,
                            rules_actions(rules@.take(k as int), c),
                        ),
                    decreases rules.len() - k,
                {
                    let ghost acc = rules_actions(rules@.take(k as int), c);
                    proof {
                        let t = rules@.take(k + 1);
                        assert(t.drop_last() =~= rules@.take(k as int));
                        assert(t.last() == rules@[k as int]);
                    }
                    if matches_hook(rules[k].matcher.as_str(), context) {
                        let hooks = &rules[k].hooks;
                        let mut a: usize = 0;
                        assert(acc + hooks@.take(0) =~= acc);
                        while a < hooks.len()
                            invariant
                                a <= hooks.len(),
                                planned_views(out@) == before_source + with_dir(
                                    e.source_dir@,
                                    acc + hooks@.take(a as int),
                                ),
                            decreases hooks.len() - a,
                        {
                            let ghost prev = out@;
                            out.push(
                                PlannedAction {
                                    source_dir: e.source_dir.as_str(),
                                    action: &hooks[a],
                                },
                            );
                            assert(planned_views(out@) =~= planned_views(prev).push(
                                (e.source_dir@, hooks@[a as int]),
                            ));
                            assert(planned_views(out@) =~= before_source + with_dir(
                                e.source_dir@,
                                acc + hooks@.take(a + 1),
                            ));
                            a = a + 1;
                        }
                        assert(hooks@.take(hooks@.len() as int) =~= hooks@);
                    } else {
                        assert(acc + Seq::<HookAction>::empty() =~= acc);
                    }
                    k = k + 1;
                }
                assert(rules@.take(rules@.len() as int) =~= rules@);
            }
            i = i + 1;
        }
        assert(views.take(views.len() as int) =~= views);
        out
    }
}

/// What registering does: without rules nothing, else it sets the entry of the source.
pub open spec fn registered(
    before: Map<SourceView, RegisteredHook>,
    after: Map<SourceView, RegisteredHook>,
    source: SourceView,
    dir: Seq<char>,
    definition: HooksDefinition,
) -> bool {
    if definition.without_rules() {
        after == before
    } else {
        exists|e: RegisteredHook| #[trigger]
            before.insert(source, e) == after && e.definition == definition && e.source_dir@ == dir
    }
}

/// What each source of a list is.
pub open spec fn source_views(v: Seq<HookSource>) -> Seq<SourceView> {
    v.map_values(|s: HookSource| source_view(s))
}

/// The label of a source.
pub open spec fn source_label(s: SourceView) -> Seq<char> {
    match s {
        SourceView::UserConfig => "user_config"@,
        SourceView::Plugin(n) => "plugin:"@ + n,
        SourceView::Skill(n) => "skill:"@ + n,
    }
}

/// An action that is to be done, with the directory of its source.
pub struct PlannedAction<'a> {
    pub source_dir: &'a str,
    pub action: &'a HookAction,
}

/// What each planned action is.
pub open spec fn planned_views(v: Seq<PlannedAction<'_>>) -> Seq<(Seq<char>, HookAction)> {
    v.map_values(|p: PlannedAction<'_>| (p.source_dir@, *p.action))
}

/// The actions of the rules that match a context, in order.
pub open spec fn rules_actions(rules: Seq<HookRule>, c: ContextView) -> Seq<HookAction>
    decreases rules.len(),
{
    if rules.len() == 0 {
        Seq::empty()
    } else {
        rules_actions(rules.drop_last(), c) + if hook_matches(rules.last().matcher@, c) {
            rules.last().hooks@
        } else {
            Seq::empty()
        }
    }
}

/// Actions with the directory they came from.
pub open spec fn with_dir(dir: Seq<char>, actions: Seq<HookAction>) -> Seq<(Seq<char>, HookAction)> {
    actions.map_values(|a: HookAction| (dir, a))
}

/// What the listed sources have to do for a context, in order.
pub open spec fn plan_of(
    order: Seq<SourceView>,
    sources: Map<SourceView, RegisteredHook>,
    c: ContextView,
) -> Seq<(Seq<char>, HookAction)>
    decreases order.len(),
{
    if order.len() == 0 {
        Seq::empty()
    } else {
        let e = sources[order.last()];
        plan_of(order.drop_last(), sources, c) + with_dir(
            e.source_dir@,
            rules_actions(e.definition.rules_of(c.event), c),
        )
    }
}

// ── Doing an action ─────────────────────────────────────────────────────────────────────────

/// How an action goes on.
pub enum ActionStep {
    /// The action is done with this result.
    Done(HookResult),
    /// A command is to be run.
    Run { command: String, shell: Option<String>, timeout: u64 },
    /// The context is to be sent to a URL.
    Send {
        url: String,
        method: String,
        headers: Vec<(String, String)>,
        timeout: u64,
    },
    /// A tool of an MCP server is to be called.
    Call { server: String, tool: String, arguments: Option<Json>, timeout: u64 },
}

/// The result of a rule that gives a permission decision.
pub open spec fn permission_result(
    decision: Seq<char>,
    reason: Option<Seq<char>>,
    suggestions: Seq<Seq<char>>,
) -> ResultView {
    let text = match reason {
        Some(r) => r,
        None => "Hook denied"@,
    };
    let base = ResultView { stop_propagation: true, ..neutral() };
    if decision == "allow"@ {
        ResultView { permission_decision: Some(DecisionView::Allow), ..base }
    } else if decision == "deny"@ {
        ResultView {
            block: true,
            block_reason: Some(text),
            permission_decision: Some(DecisionView::Deny(text)),
            ..base
        }
    } else if decision == "ask"@ {
        ResultView { permission_decision: Some(DecisionView::Ask(suggestions)), ..base }
    } else {
        base
    }
}

/// The command of a hook with the directory of its source filled in.
pub open spec fn filled_command(command: Seq<char>, dir: Seq<char>) -> Seq<char> {
    replace(replace(command, "${SKILL_DIR}"@, dir), "${CLAUDE_PLUGIN_ROOT}"@, dir)
}

/// Whether `step` is how `action` goes on.
pub open spec fn right_step(
    action: HookAction,
    dir: Seq<char>,
    can_call: bool,
    step: ActionStep,
) -> bool {
    match action {
        HookAction::Command { command, shell, timeout } => step matches ActionStep::Run {
            command: c,
            shell: s,
            timeout: t,
        } && c@ == filled_command(command@, dir) && s == shell && t == timeout,
        HookAction::Prompt { prompt } => step matches ActionStep::Done(r) && r@ == (ResultView {
            messages: seq![prompt@],
            ..neutral()
        }),
        HookAction::Permission { decision, reason, suggestions } => step matches ActionStep::Done(
            r,
        ) && r@ == permission_result(decision@, opt_str(reason), strs(suggestions@)),
        HookAction::Http { url, method, headers, timeout } => step matches ActionStep::Send {
            url: u,
            method: m,
            headers: h,
            timeout: t,
        } && u == url && m@ == (match method {
            Some(x) => x@,
            None => "POST"@,
        }) && pairs(h@) == (match headers {
            Some(x) => pairs(x@),
            None => Seq::empty(),
        }) && t == timeout,
        HookAction::McpTool { server, tool, arguments, timeout } => if can_call {
            step matches ActionStep::Call { server: s, tool: o, arguments: a, timeout: t } && s
                == server && o == tool && opt_json(a) == opt_json(arguments) && t == timeout
        } else {
            step matches ActionStep::Done(r) && r@ == neutral()
        },
        HookAction::Agent { name, task, max_iterations: _, timeout: _ } => {
            step matches ActionStep::Done(r) && r@ == (ResultView {
                messages: seq![
                    "Agent hook '"@ + name@ + "' would be spawned with task: "@ + (match task {
                        Some(t) => t@,
                        None => "(none)"@,
                    }),
                ],
                ..neutral()
            })
        },
    }
}

fn copy_pairs(v: &Vec<(String, String)>) -> (r: Vec<(String, String)>)
    ensures
        pairs(r@) == pairs(v@),
{
    let mut out: Vec<(String, String)> = Vec::new();
    let mut i: usize = 0;
    while i < v.len()
        invariant
            i <= v.len(),
            out.len() == i,
            forall|k: int|
                0 <= k < i ==> (#[trigger] out@[k]).0@ == v@[k].0@ && out@[k].1@ == v@[k].1@,
        decreases v.len() - i,
    {
        out.push((v[i].0.clone(), v[i].1.clone()));
        i = i + 1;
    }
    assert(pairs(out@) =~= pairs(v@));
    out
}

fn one_message(m: String) -> (r: HookResult)
    ensures
        r@ == (ResultView { messages: seq![m@], ..neutral() }),
{
    let mut r: HookResult = Default::default();
    let mut messages: Vec<String> = Vec::new();
    messages.push(m);
    assert(strs(messages@) =~= seq![m@]);
    r.messages = messages;
    r
}

/// How an action of a source goes on, given whether tools of MCP servers can be called.
pub fn begin_action(action: &HookAction, source_dir: &str, can_call: bool) -> (r: ActionStep)
    ensures
        right_step(*action, source_dir@, can_call, r),
{
    match action {
        HookAction::Command { command, shell, timeout } => {
            proof {
                reveal_strlit("${SKILL_DIR}");
                reveal_strlit("${CLAUDE_PLUGIN_ROOT}");
            }
            let first = replaced(command.as_str(), "${SKILL_DIR}", source_dir);
            let filled = replaced(first.as_str(), "${CLAUDE_PLUGIN_ROOT}", source_dir);
            ActionStep::Run { command: filled, shell: shell.clone(), timeout: *timeout }
        },
        HookAction::Prompt { prompt } => ActionStep::Done(one_message(prompt.clone())),
        HookAction::Permission { decision, reason, suggestions } => {
            let mut r: HookResult = Default::default();
            if same(decision.as_str(), "allow") {
                r.permission_decision = Some(PermissionDecision::Allow);
            } else if same(decision.as_str(), "deny") {
                let text = match reason {
                    Some(t) => t.clone(),
                    None => "Hook denied".to_owned(),
                };
                r.block = true;
                r.block_reason = Some(text.clone());
                r.permission_decision = Some(PermissionDecision::Deny { reason: text });
            } else if same(decision.as_str(), "ask") {
                r.permission_decision = Some(
                    PermissionDecision::Ask { suggestions: copy_strings(suggestions) },
                );
            }
            r.stop_propagation = true;
            ActionStep::Done(r)
        },
        HookAction::Http { url, method, headers, timeout } => {
            let m = match method {
                Some(x) => x.clone(),
                None => "POST".to_owned(),
            };
            let h = match headers {
                Some(x) => copy_pairs(x),
                None => Vec::new(),
            };
            assert(headers is None ==> pairs(h@) =~= Seq::<(Seq<char>, Seq<char>)>::empty());
            ActionStep::Send { url: url.clone(), method: m, headers: h, timeout: *timeout }
        },
        HookAction::McpTool { server, tool, arguments, timeout } => {
            if can_call {
                let a = match arguments {
                    Some(j) => Some(j.copy()),
                    None => None,
                };
                ActionStep::Call {
                    server: server.clone(),
                    tool: tool.clone(),
                    arguments: a,
                    timeout: *timeout,
                }
            } else {
                ActionStep::Done(Default::default())
            }
        },
        HookAction::Agent { name, task, max_iterations: _, timeout: _ } => {
            let mut m = "Agent hook '".to_owned();
            m.push_str(name.as_str());
            m.push_str("' would be spawned with task: ");
            match task {
                Some(t) => {
                    m.push_str(t.as_str());
                },
                None => {
                    m.push_str("(none)");
                },
            }
            ActionStep::Done(one_message(m))
        },
    }
}

/// Adds the result of the next hook and tells whether no further hook is to run.
pub fn record_result(combined: &mut HookResult, incoming: HookResult) -> (done: bool)
    ensures
        final(combined)@ == merged(old(combined)@, incoming@),
        done == (final(combined)@.block || final(combined)@.stop_propagation),
{
    merge_result(combined, incoming);
    combined.stop_propagation || combined.block
}

/// The result of a hook whose command or request did not come to an end, or was answered with an
/// error: nothing.
pub fn failed_hook() -> (r: HookResult)
    ensures
        r@ == neutral(),
{
    Default::default()
}

/// The result of a hook request by the status and the text of its answer: the text is read like
/// the output of a command that ended well, and any other status gives nothing.
pub fn read_answer(success: bool, text: &str) -> (r: HookResult)
    ensures
        r@ == if success {
            printed_result(trim(text@), json_document(trim(text@)), 0)
        } else {
            neutral()
        },
{
    if success {
        parse_hook_output(text, 0)
    } else {
        Default::default()
    }
}

/// Removing a source undoes its registration, where nothing was registered for it before.
pub proof fn law_unregistering_undoes_registering(
    before: Map<SourceView, RegisteredHook>,
    after: Map<SourceView, RegisteredHook>,
    source: SourceView,
    dir: Seq<char>,
    definition: HooksDefinition,
)
    requires
        registered(before, after, source, dir, definition),
        !before.contains_key(source),
    ensures
        after.remove(source) == before,
{
    assert(after.remove(source) =~= before);
}

proof fn lemma_actions_of_rule(rules: Seq<HookRule>, c: ContextView, k: int)
    requires
        0 <= k < rules.len(),
    ensures
        rules_actions(rules.take(k + 1), c) == rules_actions(rules.take(k), c) + if hook_matches(
            rules[k].matcher@,
            c,
        ) {
            rules[k].hooks@
        } else {
            Seq::empty()
        },
{
    assert(rules.take(k + 1).drop_last() =~= rules.take(k));
}

proof fn lemma_actions_up_to(rules: Seq<HookRule>, c: ContextView, k: int, n: int)
    requires
        0 <= k <= n <= rules.len(),
    ensures
        rules_actions(rules.take(k), c).is_prefix_of(rules_actions(rules.take(n), c)),
    decreases n - k,
{
    if k < n {
        lemma_actions_up_to(rules, c, k, n - 1);
        lemma_actions_of_rule(rules, c, n - 1);
        let a = rules_actions(rules.take(k), c);
        let b = rules_actions(rules.take(n - 1), c);
        let d = rules_actions(rules.take(n), c);
        assert(b =~= d.take(b.len() as int));
        assert(a =~= d.take(a.len() as int));
    }
}

/// Where in the actions of some rules an action of a rule stands.
spec fn action_place(rules: Seq<HookRule>, c: ContextView, k: int, j: int) -> int {
    rules_actions(rules.take(k), c).len() + j
}

proof fn lemma_action_place(rules: Seq<HookRule>, c: ContextView, k: int, j: int)
    requires
        0 <= k < rules.len(),
        hook_matches(rules[k].matcher@, c),
        0 <= j < rules[k].hooks@.len(),
    ensures
        rules_actions(rules.take(k), c).len() <= action_place(rules, c, k, j) < rules_actions(
            rules.take(k + 1),
            c,
        ).len() <= rules_actions(rules, c).len(),
        rules_actions(rules, c)[action_place(rules, c, k, j)] == rules[k].hooks@[j],
{
    lemma_actions_of_rule(rules, c, k);
    lemma_actions_up_to(rules, c, k + 1, rules.len() as int);
    assert(rules.take(rules.len() as int) =~= rules);
    let part = rules_actions(rules.take(k + 1), c);
    assert(part[action_place(rules, c, k, j)] == rules[k].hooks@[j]);
}

proof fn lemma_place_of_action(rules: Seq<HookRule>, c: ContextView, p: int) -> (r: (int, int))
    requires
        0 <= p < rules_actions(rules, c).len(),
    ensures
        0 <= r.0 < rules.len(),
        hook_matches(rules[r.0].matcher@, c),
        0 <= r.1 < rules[r.0].hooks@.len(),
        action_place(rules, c, r.0, r.1) == p,
    decreases rules.len(),
{
    let init = rules.drop_last();
    let n = rules_actions(init, c).len() as int;
    if p < n {
        let r = lemma_place_of_action(init, c, p);
        assert(init.take(r.0) =~= rules.take(r.0));
        r
    } else {
        assert(rules.take(rules.len() - 1) =~= init);
        (rules.len() - 1, p - n)
    }
}

proof fn lemma_plan_of_source(
    order: Seq<SourceView>,
    sources: Map<SourceView, RegisteredHook>,
    c: ContextView,
    i: int,
)
    requires
        0 <= i < order.len(),
    ensures
        plan_of(order.take(i + 1), sources, c) == plan_of(order.take(i), sources, c) + with_dir(
            sources[order[i]].source_dir@,
            rules_actions(sources[order[i]].definition.rules_of(c.event), c),
        ),
{
    assert(order.take(i + 1).drop_last() =~= order.take(i));
}

proof fn lemma_plan_up_to(
    order: Seq<SourceView>,
    sources: Map<SourceView, RegisteredHook>,
    c: ContextView,
    i: int,
    n: int,
)
    requires
        0 <= i <= n <= order.len(),
    ensures
        plan_of(order.take(i), sources, c).is_prefix_of(plan_of(order.take(n), sources, c)),
    decreases n - i,
{
    if i < n {
        lemma_plan_up_to(order, sources, c, i, n - 1);
        lemma_plan_of_source(order, sources, c, n - 1);
        let a = plan_of(order.take(i), sources, c);
        let b = plan_of(order.take(n - 1), sources, c);
        let d = plan_of(order.take(n), sources, c);
        assert(b =~= d.take(b.len() as int));
        assert(a =~= d.take(a.len() as int));
    }
}

/// Where in a plan an action of a rule of a source stands.
spec fn plan_place(
    order: Seq<SourceView>,
    sources: Map<SourceView, RegisteredHook>,
    c: ContextView,
    at: (int, int, int),
) -> int {
    plan_of(order.take(at.0), sources, c).len() + action_place(
        sources[order[at.0]].definition.rules_of(c.event),
        c,
        at.1,
        at.2,
    )
}

proof fn lemma_plan_place(
    order: Seq<SourceView>,
    sources: Map<SourceView, RegisteredHook>,
    c: ContextView,
    at: (int, int, int),
)
    requires
        0 <= at.0 < order.len(),
        0 <= at.1 < sources[order[at.0]].definition.rules_of(c.event).len(),
        hook_matches(sources[order[at.0]].definition.rules_of(c.event)[at.1].matcher@, c),
        0 <= at.2 < sources[order[at.0]].definition.rules_of(c.event)[at.1].hooks@.len(),
    ensures
        plan_of(order.take(at.0), sources, c).len() <= plan_place(order, sources, c, at) < plan_of(
            order.take(at.0 + 1),
            sources,
            c,
        ).len() <= plan_of(order, sources, c).len(),
        plan_of(order, sources, c)[plan_place(order, sources, c, at)] == (
            sources[order[at.0]].source_dir@,
            sources[order[at.0]].definition.rules_of(c.event)[at.1].hooks@[at.2],
        ),
{
    let rules = sources[order[at.0]].definition.rules_of(c.event);
    lemma_action_place(rules, c, at.1, at.2);
    lemma_plan_of_source(order, sources, c, at.0);
    lemma_plan_up_to(order, sources, c, at.0 + 1, order.len() as int);
    assert(order.take(order.len() as int) =~= order);
    let part = plan_of(order.take(at.0 + 1), sources, c);
    let p = plan_place(order, sources, c, at);
    assert(part[p] == plan_of(order, sources, c)[p]);
}

proof fn lemma_place_in_plan(
    order: Seq<SourceView>,
    sources: Map<SourceView, RegisteredHook>,
    c: ContextView,
    p: int,
) -> (at: (int, int, int))
    requires
        0 <= p < plan_of(order, sources, c).len(),
    ensures
        0 <= at.0 < order.len(),
        0 <= at.1 < sources[order[at.0]].definition.rules_of(c.event).len(),
        hook_matches(sources[order[at.0]].definition.rules_of(c.event)[at.1].matcher@, c),
        0 <= at.2 < sources[order[at.0]].definition.rules_of(c.event)[at.1].hooks@.len(),
        plan_place(order, sources, c, at) == p,
    decreases order.len(),
{
    let init = order.drop_last();
    let n = plan_of(init, sources, c).len() as int;
    if p < n {
        let at = lemma_place_in_plan(init, sources, c, p);
        assert(init.take(at.0) =~= order.take(at.0));
        at
    } else {
        assert(order.take(order.len() - 1) =~= init);
        let rules = sources[order.last()].definition.rules_of(c.event);
        let r = lemma_place_of_action(rules, c, p - n);
        (order.len() - 1, r.0, r.1)
    }
}

proof fn lemma_places_increase(
    order: Seq<SourceView>,
    sources: Map<SourceView, RegisteredHook>,
    c: ContextView,
    a: (int, int, int),
    b: (int, int, int),
)
    requires
        0 <= a.0 < order.len(),
        0 <= a.1 < sources[order[a.0]].definition.rules_of(c.event).len(),
        hook_matches(sources[order[a.0]].definition.rules_of(c.event)[a.1].matcher@, c),
        0 <= a.2 < sources[order[a.0]].definition.rules_of(c.event)[a.1].hooks@.len(),
        0 <= b.0 < order.len(),
        0 <= b.1 < sources[order[b.0]].definition.rules_of(c.event).len(),
        hook_matches(sources[order[b.0]].definition.rules_of(c.event)[b.1].matcher@, c),
        0 <= b.2 < sources[order[b.0]].definition.rules_of(c.event)[b.1].hooks@.len(),
        a.0 < b.0 || (a.0 == b.0 && (a.1 < b.1 || (a.1 == b.1 && a.2 < b.2))),
    ensures
        plan_place(order, sources, c, a) < plan_place(order, sources, c, b),
{
    lemma_plan_place(order, sources, c, a);
    lemma_plan_place(order, sources, c, b);
    let rules = sources[order[a.0]].definition.rules_of(c.event);
    if a.0 < b.0 {
        lemma_plan_up_to(order, sources, c, a.0 + 1, b.0);
    } else if a.1 < b.1 {
        lemma_action_place(rules, c, a.1, a.2);
        lemma_actions_up_to(rules, c, a.1 + 1, b.1);
    }
}

spec fn listed_at(
    order: Seq<SourceView>,
    sources: Map<SourceView, RegisteredHook>,
    c: ContextView,
    at: (int, int, int),
    p: int,
) -> bool {
    &&& 0 <= at.0 < order.len()
    &&& 0 <= at.1 < sources[order[at.0]].definition.rules_of(c.event).len()
    &&& hook_matches(sources[order[at.0]].definition.rules_of(c.event)[at.1].matcher@, c)
    &&& 0 <= at.2 < sources[order[at.0]].definition.rules_of(c.event)[at.1].hooks@.len()
    &&& plan_place(order, sources, c, at) == p
}

/// A plan holds exactly the actions of the matching rules, each of them once and in order. There is
/// a place in the plan for every action of every rule of every source for the event whose matcher
/// matches the context; the action stands there with the directory of its source. The places follow
/// the order of the sources, then that of the rules of a source, then that of the actions of a
/// rule, and every place of the plan is one of them. The two results give the place of an action, by
/// the numbers of its source, of its rule and of itself, and the action at a place.
pub proof fn law_plan_is_complete(
    order: Seq<SourceView>,
    sources: Map<SourceView, RegisteredHook>,
    c: ContextView,
) -> (r: (spec_fn((int, int, int)) -> int, spec_fn(int) -> (int, int, int)))
    requires
        in_run_order(order, sources),
    ensures
        forall|i: int, k: int, j: int|
            0 <= i < order.len() && 0 <= k < sources[order[i]].definition.rules_of(
                c.event,
            ).len() && hook_matches(
                sources[order[i]].definition.rules_of(c.event)[k].matcher@,
                c,
            ) && 0 <= j < sources[order[i]].definition.rules_of(c.event)[k].hooks@.len()
                ==> {
                &&& 0 <= #[trigger] (r.0)((i, k, j)) < plan_of(order, sources, c).len()
                &&& plan_of(order, sources, c)[(r.0)((i, k, j))] == (
                    sources[order[i]].source_dir@,
                    sources[order[i]].definition.rules_of(c.event)[k].hooks@[j],
                )
            },
        forall|a: (int, int, int), b: (int, int, int)|
            0 <= a.0 < order.len() && 0 <= a.1 < sources[order[a.0]].definition.rules_of(
                c.event,
            ).len() && hook_matches(
                sources[order[a.0]].definition.rules_of(c.event)[a.1].matcher@,
                c,
            ) && 0 <= a.2 < sources[order[a.0]].definition.rules_of(
                c.event,
            )[a.1].hooks@.len() && 0 <= b.0 < order.len() && 0 <= b.1
                < sources[order[b.0]].definition.rules_of(c.event).len() && hook_matches(
                sources[order[b.0]].definition.rules_of(c.event)[b.1].matcher@,
                c,
            ) && 0 <= b.2 < sources[order[b.0]].definition.rules_of(
                c.event,
            )[b.1].hooks@.len() && (a.0 < b.0 || (a.0 == b.0 && (a.1 < b.1 || (a.1 == b.1
                && a.2 < b.2)))) ==> #[trigger] (r.0)(a) < #[trigger] (r.0)(b),
        forall|p: int|
            0 <= p < plan_of(order, sources, c).len() ==> {
                let at = #[trigger] (r.1)(p);
                &&& 0 <= at.0 < order.len()
                &&& 0 <= at.1 < sources[order[at.0]].definition.rules_of(c.event).len()
                &&& hook_matches(
                    sources[order[at.0]].definition.rules_of(c.event)[at.1].matcher@,
                    c,
                )
                &&& 0 <= at.2 < sources[order[at.0]].definition.rules_of(
                    c.event,
                )[at.1].hooks@.len()
                &&& (r.0)(at) == p
            },
{
    let place = |at: (int, int, int)| plan_place(order, sources, c, at);
    assert forall|i: int, k: int, j: int|
        0 <= i < order.len() && 0 <= k < sources[order[i]].definition.rules_of(c.event).len()
            && hook_matches(sources[order[i]].definition.rules_of(c.event)[k].matcher@, c) && 0
            <= j < sources[order[i]].definition.rules_of(c.event)[k].hooks@.len() implies {
        &&& 0 <= #[trigger] place((i, k, j)) < plan_of(order, sources, c).len()
        &&& plan_of(order, sources, c)[place((i, k, j))] == (
            sources[order[i]].source_dir@,
            sources[order[i]].definition.rules_of(c.event)[k].hooks@[j],
        )
    } by {
        lemma_plan_place(order, sources, c, (i, k, j));
    }
    assert forall|a: (int, int, int), b: (int, int, int)|
        0 <= a.0 < order.len() && 0 <= a.1 < sources[order[a.0]].definition.rules_of(c.event).len()
            && hook_matches(sources[order[a.0]].definition.rules_of(c.event)[a.1].matcher@, c) && 0
            <= a.2 < sources[order[a.0]].definition.rules_of(c.event)[a.1].hooks@.len() && 0 <= b.0
            < order.len() && 0 <= b.1 < sources[order[b.0]].definition.rules_of(c.event).len()
            && hook_matches(sources[order[b.0]].definition.rules_of(c.event)[b.1].matcher@, c) && 0
            <= b.2 < sources[order[b.0]].definition.rules_of(c.event)[b.1].hooks@.len() && (a.0
            < b.0 || (a.0 == b.0 && (a.1 < b.1 || (a.1 == b.1 && a.2 < b.2)))) implies #[trigger] place(
        a,
    ) < #[trigger] place(b) by {
        lemma_places_increase(order, sources, c, a, b);
    }
    let origin = |p: int|
        choose|at: (int, int, int)| #[trigger] listed_at(order, sources, c, at, p);
    assert forall|p: int| 0 <= p < plan_of(order, sources, c).len() implies listed_at(
        order,
        sources,
        c,
        #[trigger] origin(p),
        p,
    ) by {
        let at = lemma_place_in_plan(order, sources, c, p);
        assert(listed_at(order, sources, c, at, p));
    }
    (place, origin)
}

/// Every registered source runs, once, and nothing else does: the user's rules first, then those of
/// the plugins by name, then those of the skills by name.
pub proof fn law_sources_run_in_order(
    order: Seq<SourceView>,
    sources: Map<SourceView, RegisteredHook>,
    s: SourceView,
    i: int,
    j: int,
)
    requires
        in_run_order(order, sources),
        0 <= i < order.len(),
        0 <= j < order.len(),
    ensures
        sources.contains_key(order[i]),
        sources.contains_key(s) ==> exists|k: int| 0 <= k < order.len() && #[trigger] order[k] == s,
        order[i] == order[j] ==> i == j,
        order[i] is UserConfig ==> i == 0,
        order[i] is Plugin && order[j] is Skill ==> i < j,
        order[i] is Plugin && order[j] is Plugin && lex_lt(order[i]->Plugin_0, order[j]->Plugin_0)
            ==> i < j,
        order[i] is Skill && order[j] is Skill && lex_lt(order[i]->Skill_0, order[j]->Skill_0)
            ==> i < j,
{
    assert(order.contains(order[i]));
    if sources.contains_key(s) {
        assert(order.contains(s));
    }
    if i < j {
        assert(runs_before(order[i], order[j]));
    }
    if j < i {
        assert(runs_before(order[j], order[i]));
    }
    if i > 0 {
        assert(runs_before(order[0], order[i]));
    }
    match (order[i], order[j]) {
        (SourceView::Plugin(x), SourceView::Plugin(y)) => {
            lemma_lex_irreflexive(x);
            if lex_lt(x, y) && lex_lt(y, x) {
                lemma_lex_transitive(x, y, x);
            }
        },
        (SourceView::Skill(x), SourceView::Skill(y)) => {
            lemma_lex_irreflexive(x);
            if lex_lt(x, y) && lex_lt(y, x) {
                lemma_lex_transitive(x, y, x);
            }
        },
        _ => {},
    }
}

/// What two hooks say together, field by field. Either may block; a reason counts only with a block,
/// and the later one before the earlier. Of the input, the mode and the reason to go on the later
/// counts where it is given. Messages follow each other, contexts stand one below the other, and the
/// fields of data objects come together, the later before the earlier. Of the decisions the strictest
/// counts, and of two equally strict ones the earlier.
pub proof fn law_two_hooks_speak_together(a: ResultView, b: ResultView)
    ensures
        ({
            let r = merged(a, b);
            &&& r.block == (a.block || b.block)
            &&& r.stop_propagation == (a.stop_propagation || b.stop_propagation)
            &&& r.retry == (a.retry || b.retry)
            &&& r.block_reason == if b.block && b.block_reason is Some {
                b.block_reason
            } else {
                a.block_reason
            }
            &&& r.updated_input == if b.updated_input is Some {
                b.updated_input
            } else {
                a.updated_input
            }
            &&& r.permission_mode_override == if b.permission_mode_override is Some {
                b.permission_mode_override
            } else {
                a.permission_mode_override
            }
            &&& r.continue_reason == if b.continue_reason is Some {
                b.continue_reason
            } else {
                a.continue_reason
            }
            &&& r.messages == a.messages + b.messages
            &&& a.injected_context is None ==> r.injected_context == b.injected_context
            &&& b.injected_context is None ==> r.injected_context == a.injected_context
            &&& a.injected_context is Some && b.injected_context is Some ==> r.injected_context
                == Some(a.injected_context->0 + seq!['\n'] + b.injected_context->0)
            &&& a.metadata is None ==> r.metadata == b.metadata
            &&& b.metadata is None ==> r.metadata == a.metadata
            &&& r.permission_decision == if a.permission_decision is None {
                b.permission_decision
            } else if b.permission_decision is None {
                a.permission_decision
            } else if a.permission_decision->0 is Deny {
                a.permission_decision
            } else if b.permission_decision->0 is Deny {
                b.permission_decision
            } else if a.permission_decision->0 is Ask {
                a.permission_decision
            } else if b.permission_decision->0 is Ask {
                b.permission_decision
            } else if a.permission_decision->0 is RequireApproval {
                a.permission_decision
            } else {
                b.permission_decision
            }
        }),
{
    reveal_strlit("\n");
    assert("\n"@ =~= seq!['\n']);
}

/// The fields of the data of two hooks are those of both; a field that both have is the later one.
pub proof fn law_data_comes_together(
    a: ResultView,
    b: ResultView,
    x: Map<Seq<char>, JsonView>,
    y: Map<Seq<char>, JsonView>,
    key: Seq<char>,
)
    requires
        a.metadata == Some(JsonView::Object(x)),
        b.metadata == Some(JsonView::Object(y)),
    ensures
        ({
            let r = merged(a, b).metadata;
            &&& r is Some && r->0 is Object
            &&& r->0.field(key) == if y.contains_key(key) {
                Some(y[key])
            } else if x.contains_key(key) {
                Some(x[key])
            } else {
                None
            }
        }),
{
}

/// The messages of some results, one after the other.
pub open spec fn messages_of(results: Seq<ResultView>) -> Seq<Seq<char>>
    decreases results.len(),
{
    if results.len() == 0 {
        Seq::empty()
    } else {
        messages_of(results.drop_last()) + results.last().messages
    }
}

/// Where no hook blocks or ends the propagation, all of them are heard: their messages come one after
/// the other, in order. The last one is heard even where it blocks. What the hooks of a longer run say
/// is what the first ones say with each further one added.
pub proof fn law_all_hooks_are_heard(results: Seq<ResultView>, last: ResultView)
    requires
        forall|i: int|
            0 <= i < results.len() ==> !(#[trigger] results[i]).block
                && !results[i].stop_propagation,
    ensures
        run_result(results).messages == messages_of(results),
        !run_result(results).block && !run_result(results).stop_propagation,
        run_result(results.push(last)) == merged(run_result(results), last),
        run_result(results.push(last)).messages == messages_of(results) + last.messages,
        run_result(results.push(last)).block == last.block,
    decreases results.len(),
{
    if results.len() > 0 {
        let init = results.drop_last();
        let x = results.last();
        assert(!results[results.len() - 1].block);
        assert forall|i: int| 0 <= i < init.len() implies !(#[trigger] init[i]).block
            && !init[i].stop_propagation by {
            assert(init[i] == results[i]);
        }
        law_all_hooks_are_heard(init, x);
        assert(init.push(x) =~= results);
    }
    assert(results.push(last).drop_last() =~= results);
}

/// What a hook says that prints nothing: it blocks where its exit code is two, and says nothing else.
/// One that prints something which is no JSON document says that as context, where it ends well.
pub proof fn law_plain_output_is_context(printed: Seq<char>, exit_code: int)
    ensures
        ({
            let r = printed_result(printed, None, exit_code);
            &&& r.block == (exit_code == 2)
            &&& r.block_reason is Some == (exit_code == 2)
            &&& r.injected_context == if printed.len() > 0 && exit_code == 0 {
                Some(printed)
            } else {
                None
            }
            &&& r.updated_input is None && r.messages.len() == 0 && !r.stop_propagation
            &&& r.permission_decision is None && r.permission_mode_override is None
            &&& r.continue_reason is None && !r.retry && r.metadata is None
        }),
{
}

/// What a hook says that prints a JSON document. Its decision to block or to allow counts before its
/// exit code, and its reason goes with a block; its other fields are taken over as they are.
pub proof fn law_document_is_taken_over(printed: Seq<char>, doc: JsonView, exit_code: int)
    requires
        printed.len() > 0,
    ensures
        ({
            let r = printed_result(printed, Some(doc), exit_code);
            let decision = doc.text_field("decision"@);
            &&& decision == Some("block"@) ==> r.block
            &&& decision == Some("block"@) && doc.text_field("reason"@) is Some ==> r.block_reason
                == doc.text_field("reason"@)
            &&& decision == Some("allow"@) ==> !r.block && r.block_reason is None
            &&& decision is None ==> r.block == (exit_code == 2)
            &&& r.updated_input == doc.field("updatedInput"@)
            &&& r.stop_propagation == (doc.field("continue"@) == Some(JsonView::Bool(false)))
            &&& r.retry == (doc.field("retry"@) == Some(JsonView::Bool(true)))
            &&& r.continue_reason == doc.text_field("continue_reason"@)
            &&& r.injected_context == doc.text_field("injected_context"@)
            &&& r.messages.len() == 0
            &&& doc.text_field("permission_decision"@) == Some("allow"@) ==> r.permission_decision
                == Some(DecisionView::Allow)
            &&& doc.text_field("permission_decision"@) == Some("deny"@) ==> denies(
                r.permission_decision,
            )
            &&& doc.text_field("permission_decision"@) == Some("deny"@) && doc.text_field(
                "permission_reason"@,
            ) is Some ==> r.permission_decision == Some(
                DecisionView::Deny(doc.text_field("permission_reason"@)->0),
            )
            &&& doc.text_field("permission_decision"@) == Some("ask"@) ==> r.permission_decision is Some
                && r.permission_decision->0 is Ask
            &&& doc.text_field("permission_decision"@) is None ==> r.permission_decision is None
            &&& doc.text_field("permission_mode"@) is None ==> r.permission_mode_override is None
            &&& doc.text_field("permission_mode"@) == Some("plan"@) ==> r.permission_mode_override
                == Some(PermissionMode::Plan)
            &&& doc.text_field("permission_mode"@) == Some("bypassPermissions"@)
                ==> r.permission_mode_override == Some(PermissionMode::BypassPermissions)
        }),
{
    reveal_strlit("allow");
    reveal_strlit("block");
    reveal_strlit("deny");
    reveal_strlit("ask");
    reveal_strlit("default");
    reveal_strlit("plan");
    reveal_strlit("auto");
    reveal_strlit("acceptEdits");
    reveal_strlit("bypassPermissions");
    assert("allow"@.len() == 5 && "block"@.len() == 5 && "deny"@.len() == 4 && "ask"@.len() == 3);
    assert("allow"@[0] != "block"@[0]);
    assert("default"@.len() == 7 && "plan"@.len() == 4 && "auto"@.len() == 4);
    assert("acceptEdits"@.len() == 11 && "bypassPermissions"@.len() == 17);
}

/// The star and the empty matcher match every event. Any other matcher matches an event of a tool
/// that it names and an event with a hint that it names, and no event with neither.
pub proof fn law_matchers_name_tools_and_hints(m: Seq<char>, c: ContextView)
    ensures
        m == "*"@ || m.len() == 0 ==> hook_matches(m, c),
        c.event.category_of() == HookEventCategory::Tool && c.tool_name == Some(m) ==> hook_matches(
            m,
            c,
        ),
        c.matcher == Some(m) ==> hook_matches(m, c),
        m != "*"@ && m.len() > 0 && c.matcher is None && (c.event.category_of()
            != HookEventCategory::Tool || c.tool_name is None) ==> !hook_matches(m, c),
        m != "*"@ && m.len() > 0 && c.matcher is None && c.tool_name is Some && hook_matches(m, c)
            ==> tool_matches(m, c.tool_name->0),
{
}

/// Faulty actions are left out when rules are registered, and no other: the actions that are kept
/// are those without a fault, in their order.
pub proof fn law_only_faulty_actions_are_dropped(actions: Seq<HookAction>)
    ensures
        faultless(actions) == actions.filter(|a: HookAction| a.fault() is None),
    decreases actions.len(),
{
    let keep = |a: HookAction| a.fault() is None;
    reveal(Seq::filter);
    if actions.len() == 0 {
        assert(faultless(actions) =~= actions.filter(keep));
    } else {
        law_only_faulty_actions_are_dropped(actions.drop_first());
        let first = seq![actions[0]];
        let rest = actions.drop_first();
        assert(first + rest =~= actions);
        Seq::filter_distributes_over_add(first, rest, keep);
        assert(first.drop_last() =~= Seq::<HookAction>::empty());
        assert(first.drop_last().filter(keep) =~= Seq::<HookAction>::empty());
        if keep(actions[0]) {
            assert(first.filter(keep) =~= first);
        } else {
            assert(first.filter(keep) =~= Seq::<HookAction>::empty());
            assert(Seq::<HookAction>::empty() + rest.filter(keep) =~= rest.filter(keep));
        }
    }
}

/// The directory of a source stands in its command wherever the command names it, and the rest of the
/// command stays.
pub proof fn law_command_names_its_directory(a: Seq<char>, b: Seq<char>, dir: Seq<char>)
    requires
        !a.contains('$'),
        !b.contains('$'),
        !dir.contains('$'),
    ensures
        filled_command(a + "${SKILL_DIR}"@ + b, dir) == a + dir + b,
        filled_command(a + "${CLAUDE_PLUGIN_ROOT}"@ + b, dir) == a + dir + b,
        filled_command(a, dir) == a,
{
    reveal_strlit("${SKILL_DIR}");
    reveal_strlit("${CLAUDE_PLUGIN_ROOT}");
    let p = "${SKILL_DIR}"@;
    let r = "${CLAUDE_PLUGIN_ROOT}"@;
    assert(p[0] == '$' && r[0] == '$' && p[2] == 'S' && r[2] == 'C');
    law_one_occurrence_is_replaced(a, p, b, dir);
    law_one_occurrence_is_replaced(a, r, b, dir);
    let done = a + dir + b;
    assert forall|i: int| 0 <= i < done.len() implies done[i] != '$' by {
        if i < a.len() {
            assert(a.contains(a[i]));
        } else if i < a.len() + dir.len() {
            assert(dir.contains(dir[i - a.len()]));
        } else {
            assert(b.contains(b[i - a.len() - dir.len()]));
        }
    }
    law_one_occurrence_is_replaced(done, r, b, dir);
    let s = a + r + b;
    let e = Seq::<char>::empty();
    assert forall|q: int| 0 <= q < s.len() implies !#[trigger] occurs_at(s + e, p, q) by {
        if occurs_at(s + e, p, q) {
            let sub = (s + e).subrange(q, q + p.len());
            assert(sub[0] == s[q] && sub[2] == s[q + 2]);
            if q < a.len() {
                assert(a.contains(a[q]));
            } else if q >= a.len() + r.len() {
                assert(b.contains(b[q - a.len() - r.len()]));
            } else {
                assert(s[q] == r[q - a.len()]);
            }
        }
    }
    lemma_replace_behind(s, e, p, dir);
    lemma_find_from(e, p, 0);
    assert(replace(e, p, dir) =~= e);
    assert(s + e =~= s);
}

/// An action does what it says. A prompt speaks its text and nothing else. A permission that denies
/// blocks, and no other does; each of them ends the propagation. Commands, requests and calls of tools
/// are handed on with what they were given, and a tool that cannot be called says nothing.
pub proof fn law_actions_do_what_they_say(
    action: HookAction,
    dir: Seq<char>,
    can_call: bool,
    step: ActionStep,
)
    requires
        right_step(action, dir, can_call, step),
    ensures
        match action {
            HookAction::Prompt { prompt } => step is Done && step->Done_0@.messages == seq![prompt@]
                && !step->Done_0@.block && !step->Done_0@.stop_propagation
                && step->Done_0@.permission_decision is None,
            HookAction::Permission { decision, reason, suggestions } => {
                &&& step is Done && step->Done_0@.stop_propagation
                &&& step->Done_0@.messages.len() == 0 && !step->Done_0@.retry
                &&& step->Done_0@.updated_input is None && step->Done_0@.injected_context is None
                &&& step->Done_0@.permission_mode_override is None
                &&& step->Done_0@.continue_reason is None && step->Done_0@.metadata is None
                &&& decision@ == "allow"@ ==> !step->Done_0@.block
                    && step->Done_0@.permission_decision == Some(DecisionView::Allow)
                &&& decision@ == "deny"@ ==> step->Done_0@.block && denies(
                    step->Done_0@.permission_decision,
                )
                &&& decision@ == "deny"@ && reason is Some ==> step->Done_0@.block_reason == Some(
                    reason->0@,
                ) && step->Done_0@.permission_decision == Some(DecisionView::Deny(reason->0@))
                &&& decision@ == "ask"@ ==> !step->Done_0@.block
                    && step->Done_0@.permission_decision == Some(
                    DecisionView::Ask(strs(suggestions@)),
                )
            },
            HookAction::Command { command, shell, timeout } => step is Run && step->Run_shell
                == shell && step->Run_timeout == timeout && step->Run_command@ == filled_command(
                command@,
                dir,
            ) && (!command@.contains('$') ==> step->Run_command@ == command@),
            HookAction::Http { url, method, headers, timeout } => step is Send && step->url == url
                && step->Send_timeout == timeout && (method is Some ==> step->method@
                == method->0@) && (headers is Some ==> pairs(step->headers@) == pairs(headers->0@)),
            HookAction::McpTool { server, tool, arguments, timeout } => if can_call {
                step is Call && step->server == server && step->tool == tool && opt_json(
                    step->arguments,
                ) == opt_json(arguments) && step->Call_timeout == timeout
            } else {
                step is Done && step->Done_0@ == neutral()
            },
            HookAction::Agent { .. } => step is Done && step->Done_0@.messages.len() == 1
                && !step->Done_0@.block,
        },
{
    reveal_strlit("allow");
    reveal_strlit("deny");
    reveal_strlit("ask");
    assert("allow"@.len() == 5 && "deny"@.len() == 4 && "ask"@.len() == 3);
    if let HookAction::Command { command, shell, timeout } = action {
        if !command@.contains('$') {
            let e = Seq::<char>::empty();
            reveal_strlit("${SKILL_DIR}");
            reveal_strlit("${CLAUDE_PLUGIN_ROOT}");
            law_one_occurrence_is_replaced(command@, "${SKILL_DIR}"@, e, dir);
            law_one_occurrence_is_replaced(command@, "${CLAUDE_PLUGIN_ROOT}"@, e, dir);
        }
    }
}

/// Registering the rules of a source, where there are any, puts them in place of those it had, with
/// the directory they came from, and leaves all other sources as they were; without rules nothing
/// changes.
pub proof fn law_registered_rules_are_in_force(
    before: Map<SourceView, RegisteredHook>,
    after: Map<SourceView, RegisteredHook>,
    source: SourceView,
    dir: Seq<char>,
    definition: HooksDefinition,
    event: HookEvent,
    other: SourceView,
)
    requires
        registered(before, after, source, dir, definition),
    ensures
        definition.rules_of(event).len() > 0 ==> after.contains_key(source)
            && after[source].definition.rules_of(event) == definition.rules_of(event)
            && after[source].source_dir@ == dir,
        (forall|e: HookEvent| #[trigger] definition.rules_of(e).len() == 0) ==> after == before,
        other != source ==> after.contains_key(other) == before.contains_key(other) && (
        before.contains_key(other) ==> after[other] == before[other]),
{
    if definition.rules_of(event).len() > 0 {
        assert(!definition.without_rules());
        let e = choose|e: RegisteredHook| #[trigger]
            before.insert(source, e) == after && e.definition == definition && e.source_dir@ == dir;
        assert(after[source] == e);
    }
}

/// An action is faulty exactly where what it needs is empty, its decision is none of the three, its
/// command is longer than 32768 bytes, or its time limit is longer than 300 seconds.
pub proof fn law_faults_of_actions(action: HookAction)
    ensures
        action.fault() is None <==> match action {
            HookAction::Command { command, shell: _, timeout } => command@.len() > 0 && text_bytes(
                command@,
            ) <= 32768 && timeout <= 300,
            HookAction::Prompt { prompt } => prompt@.len() > 0,
            HookAction::Permission { decision, reason: _, suggestions: _ } => decision@ == "allow"@
                || decision@ == "deny"@ || decision@ == "ask"@,
            HookAction::Http { url, method: _, headers: _, timeout } => url@.len() > 0 && timeout
                <= 300,
            HookAction::McpTool { server, tool, arguments: _, timeout } => server@.len() > 0
                && tool@.len() > 0 && timeout <= 300,
            HookAction::Agent { name, task: _, max_iterations: _, timeout } => name@.len() > 0
                && timeout <= 300,
        },
{
}

/// The number of actions of the rules that match a context.
pub open spec fn matching_actions(rules: Seq<HookRule>, c: ContextView) -> nat
    decreases rules.len(),
{
    if rules.len() == 0 {
        0
    } else {
        matching_actions(rules.drop_first(), c) + if hook_matches(rules[0].matcher@, c) {
            rules[0].hooks@.len()
        } else {
            0
        }
    }
}

/// The number of actions of the matching rules of some sources.
pub open spec fn matching_actions_of(
    order: Seq<SourceView>,
    sources: Map<SourceView, RegisteredHook>,
    c: ContextView,
) -> nat
    decreases order.len(),
{
    if order.len() == 0 {
        0
    } else {
        matching_actions_of(order.drop_first(), sources, c) + matching_actions(
            sources[order[0]].definition.rules_of(c.event),
            c,
        )
    }
}

proof fn lemma_matching_last(rules: Seq<HookRule>, c: ContextView)
    requires
        rules.len() > 0,
    ensures
        matching_actions(rules, c) == matching_actions(rules.drop_last(), c) + if hook_matches(
            rules.last().matcher@,
            c,
        ) {
            rules.last().hooks@.len()
        } else {
            0
        },
    decreases rules.len(),
{
    if rules.len() > 1 {
        lemma_matching_last(rules.drop_first(), c);
        assert(rules.drop_first().drop_last() =~= rules.drop_last().drop_first());
    } else {
        assert(rules.drop_first() =~= Seq::<HookRule>::empty());
        assert(rules.drop_last() =~= Seq::<HookRule>::empty());
    }
}

proof fn lemma_matching_last_source(
    order: Seq<SourceView>,
    sources: Map<SourceView, RegisteredHook>,
    c: ContextView,
)
    requires
        order.len() > 0,
    ensures
        matching_actions_of(order, sources, c) == matching_actions_of(order.drop_last(), sources, c)
            + matching_actions(sources[order.last()].definition.rules_of(c.event), c),
    decreases order.len(),
{
    if order.len() > 1 {
        lemma_matching_last_source(order.drop_first(), sources, c);
        assert(order.drop_first().drop_last() =~= order.drop_last().drop_first());
    } else {
        assert(order.drop_first() =~= Seq::<SourceView>::empty());
        assert(order.drop_last() =~= Seq::<SourceView>::empty());
    }
}

proof fn lemma_actions_counted(rules: Seq<HookRule>, c: ContextView)
    ensures
        rules_actions(rules, c).len() == matching_actions(rules, c),
    decreases rules.len(),
{
    if rules.len() > 0 {
        lemma_actions_counted(rules.drop_last(), c);
        lemma_matching_last(rules, c);
    }
}

/// A plan has as many actions as the matching rules of all its sources have together.
pub proof fn law_plan_has_every_action(
    order: Seq<SourceView>,
    sources: Map<SourceView, RegisteredHook>,
    c: ContextView,
)
    ensures
        plan_of(order, sources, c).len() == matching_actions_of(order, sources, c),
    decreases order.len(),
{
    if order.len() > 0 {
        law_plan_has_every_action(order.drop_last(), sources, c);
        lemma_matching_last_source(order, sources, c);
        lemma_actions_counted(sources[order.last()].definition.rules_of(c.event), c);
    }
}

} // verus!
