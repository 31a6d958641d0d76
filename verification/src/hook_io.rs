//! What hooks are told: their context as JSON, and the names of events.

use vstd::prelude::*;
use crate::hooks::{ContextView, CompressHookStats, HookContext, HookEvent};
use crate::json::{
    fields_view, json_text, json_view, list_view, number_of, print, set_field, Json, JsonView,
};
use crate::text::{decimal, opt_str, same, strs};

verus! {

/// The event with a name.
pub fn event_named(name: &str) -> (r: Option<HookEvent>)
    ensures
        match r {
            Some(e) => e.name() == name@,
            None => forall|e: HookEvent| #[trigger] e.name() != name@,
        },
{
    if same(name, "PreToolUse") {
        Some(HookEvent::PreToolUse)
    } else if same(name, "PostToolUse") {
        Some(HookEvent::PostToolUse)
    } else if same(name, "PostToolUseFailure") {
        Some(HookEvent::PostToolUseFailure)
    } else if same(name, "PermissionRequest") {
        Some(HookEvent::PermissionRequest)
    } else if same(name, "PermissionDenied") {
        Some(HookEvent::PermissionDenied)
    } else if same(name, "SessionStart") {
        Some(HookEvent::SessionStart)
    } else if same(name, "SessionEnd") {
        Some(HookEvent::SessionEnd)
    } else if same(name, "Stop") {
        Some(HookEvent::Stop)
    } else if same(name, "Notification") {
        Some(HookEvent::Notification)
    } else if same(name, "UserPromptSubmit") {
        Some(HookEvent::UserPromptSubmit)
    } else if same(name, "PreCompact") {
        Some(HookEvent::PreCompact)
    } else if same(name, "PostCompact") {
        Some(HookEvent::PostCompact)
    } else if same(name, "ConfigChange") {
        Some(HookEvent::ConfigChange)
    } else if same(name, "InstructionsLoaded") {
        Some(HookEvent::InstructionsLoaded)
    } else if same(name, "PostToolBatch") {
        Some(HookEvent::PostToolBatch)
    } else if same(name, "SubagentStart") {
        Some(HookEvent::SubagentStart)
    } else if same(name, "SubagentStop") {
        Some(HookEvent::SubagentStop)
    } else if same(name, "TaskCreated") {
        Some(HookEvent::TaskCreated)
    } else if same(name, "TaskCompleted") {
        Some(HookEvent::TaskCompleted)
    } else if same(name, "StopFailure") {
        Some(HookEvent::StopFailure)
    } else if same(name, "PluginLoaded") {
        Some(HookEvent::PluginLoaded)
    } else if same(name, "PluginDisabled") {
        Some(HookEvent::PluginDisabled)
    } else if same(name, "TaskTimeout") {
        Some(HookEvent::TaskTimeout)
    } else if same(name, "TaskCancelled") {
        Some(HookEvent::TaskCancelled)
    } else if same(name, "SubagentCancelled") {
        Some(HookEvent::SubagentCancelled)
    } else if same(name, "PostMemoryWrite") {
        Some(HookEvent::PostMemoryWrite)
    } else if same(name, "MemoryLayerChange") {
        Some(HookEvent::MemoryLayerChange)
    } else if same(name, "SkillCandidateDetected") {
        Some(HookEvent::SkillCandidateDetected)
    } else if same(name, "SkillLifecycleTransition") {
        Some(HookEvent::SkillLifecycleTransition)
    } else if same(name, "SkillHealthCheck") {
        Some(HookEvent::SkillHealthCheck)
    } else if same(name, "SkillPatchApplied") {
        Some(HookEvent::SkillPatchApplied)
    } else if same(name, "SkillMergeApplied") {
        Some(HookEvent::SkillMergeApplied)
    } else if same(name, "RulePromoted") {
        Some(HookEvent::RulePromoted)
    } else {
        None
    }
}

// ── Fields ──────────────────────────────────────────────────────────────────────────────────

/// The fields with a text, where there is one.
pub open spec fn with_text(
    m: Map<Seq<char>, JsonView>,
    key: Seq<char>,
    o: Option<Seq<char>>,
) -> Map<Seq<char>, JsonView> {
    match o {
        Some(t) => m.insert(key, JsonView::Str(t)),
        None => m,
    }
}

/// The fields with a value, where there is one.
pub open spec fn with_value(
    m: Map<Seq<char>, JsonView>,
    key: Seq<char>,
    o: Option<JsonView>,
) -> Map<Seq<char>, JsonView> {
    match o {
        Some(v) => m.insert(key, v),
        None => m,
    }
}

/// The fields with a boolean, where there is one.
pub open spec fn with_flag(
    m: Map<Seq<char>, JsonView>,
    key: Seq<char>,
    o: Option<bool>,
) -> Map<Seq<char>, JsonView> {
    match o {
        Some(b) => m.insert(key, JsonView::Bool(b)),
        None => m,
    }
}

/// The fields with a whole number, where there is one.
pub open spec fn with_count(
    m: Map<Seq<char>, JsonView>,
    key: Seq<char>,
    o: Option<usize>,
) -> Map<Seq<char>, JsonView> {
    match o {
        Some(n) => m.insert(key, JsonView::Number(decimal(n as nat))),
        None => m,
    }
}

/// A list of texts as JSON.
pub open spec fn text_list(v: Seq<Seq<char>>) -> JsonView {
    JsonView::Array(v.map_values(|t: Seq<char>| JsonView::Str(t)))
}

/// The fields with a list of texts, where there is one.
pub open spec fn with_list(
    m: Map<Seq<char>, JsonView>,
    key: Seq<char>,
    o: Option<Seq<Seq<char>>>,
) -> Map<Seq<char>, JsonView> {
    match o {
        Some(v) => m.insert(key, text_list(v)),
        None => m,
    }
}

/// The statistics of a compression as JSON.
pub open spec fn stats_fields(s: CompressHookStats) -> Map<Seq<char>, JsonView> {
    Map::<Seq<char>, JsonView>::empty().insert(
        "before_count"@,
        JsonView::Number(decimal(s.before_count as nat)),
    ).insert("after_count"@, JsonView::Number(decimal(s.after_count as nat))).insert(
        "before_tokens"@,
        JsonView::Number(decimal(s.before_tokens as nat)),
    ).insert("after_tokens"@, JsonView::Number(decimal(s.after_tokens as nat)))
}

/// The fields with the statistics of a compression, where there are any.
pub open spec fn with_stats(
    m: Map<Seq<char>, JsonView>,
    key: Seq<char>,
    o: Option<CompressHookStats>,
) -> Map<Seq<char>, JsonView> {
    match o {
        Some(s) => m.insert(key, JsonView::Object(stats_fields(s))),
        None => m,
    }
}

/// The context of a hook as fields; what is missing is left out.
pub open spec fn context_fields(c: ContextView) -> Map<Seq<char>, JsonView> {
    let base = Map::<Seq<char>, JsonView>::empty().insert("event"@, JsonView::Str(c.event.name()));
    let m1 = base.insert("session_id"@, JsonView::Str(c.session_id));
    let m2 = m1.insert("agent_name"@, JsonView::Str(c.agent_name));
    let m3 = m2.insert("cwd"@, JsonView::Str(c.cwd));
    let m4 = with_text(m3, "tool_name"@, c.tool_name);
    let m5 = with_value(m4, "tool_input"@, c.tool_input);
    let m6 = with_text(m5, "tool_output"@, c.tool_output);
    let m7 = with_text(m6, "tool_error"@, c.tool_error);
    let m8 = with_text(m7, "denial_reason"@, c.denial_reason);
    let m9 = with_flag(m8, "retry_allowed"@, c.retry_allowed);
    let m10 = with_text(m9, "matcher"@, c.matcher);
    let m11 = with_text(m10, "prompt"@, c.prompt);
    let m12 = with_stats(m11, "compress_stats"@, c.compress_stats);
    let m13 = with_text(m12, "config_path"@, c.config_path);
    let m14 = with_list(m13, "skill_names"@, c.skill_names);
    let m15 = with_list(m14, "batch_tool_names"@, c.batch_tool_names);
    let m16 = with_count(m15, "batch_success_count"@, c.batch_success_count);
    let m17 = with_count(m16, "batch_failure_count"@, c.batch_failure_count);
    let m18 = with_text(m17, "subagent_name"@, c.subagent_name);
    let m19 = with_text(m18, "subagent_mode"@, c.subagent_mode);
    let m20 = with_text(m19, "subagent_task"@, c.subagent_task);
    let m21 = with_text(m20, "subagent_result"@, c.subagent_result);
    let m22 = with_text(m21, "task_id"@, c.task_id);
    let m23 = with_text(m22, "task_subject"@, c.task_subject);
    let m24 = with_text(m23, "task_result"@, c.task_result);
    let m25 = with_text(m24, "failure_error"@, c.failure_error);
    let m26 = with_text(m25, "failure_category"@, c.failure_category);
    let m27 = with_flag(m26, "stop_hook_active"@, c.stop_hook_active);
    let m28 = with_text(m27, "memory_key"@, c.memory_key);
    let m29 = with_text(m28, "memory_source"@, c.memory_source);
    let m30 = with_text(m29, "memory_from_layer"@, c.memory_from_layer);
    let m31 = with_text(m30, "memory_to_layer"@, c.memory_to_layer);
    m31
}

fn put_text(fields: &mut Vec<(String, Json)>, key: &str, o: &Option<String>)
    ensures
        fields_view(final(fields)@) == with_text(fields_view(old(fields)@), key@, opt_str(*o)),
{
    if let Some(t) = o {
        set_field(fields, key, Json::Str(t.clone()));
    }
}

fn put_value(fields: &mut Vec<(String, Json)>, key: &str, o: &Option<Json>)
    ensures
        fields_view(final(fields)@) == with_value(
            fields_view(old(fields)@),
            key@,
            crate::hooks::opt_json(*o),
        ),
{
    if let Some(v) = o {
        set_field(fields, key, v.copy());
    }
}

fn put_flag(fields: &mut Vec<(String, Json)>, key: &str, o: Option<bool>)
    ensures
        fields_view(final(fields)@) == with_flag(fields_view(old(fields)@), key@, o),
{
    if let Some(b) = o {
        set_field(fields, key, Json::Bool(b));
    }
}

fn put_count(fields: &mut Vec<(String, Json)>, key: &str, o: Option<usize>)
    ensures
        fields_view(final(fields)@) == with_count(fields_view(old(fields)@), key@, o),
{
    if let Some(n) = o {
        set_field(fields, key, Json::Number(number_of(n as u64)));
    }
}

fn texts_json(v: &Vec<String>) -> (r: Json)
    ensures
        r@ == text_list(strs(v@)),
{
    let ghost all = strs(v@);
    let mut out: Vec<Json> = Vec::new();
    let mut i: usize = 0;
    assert(list_view(out@) =~= Seq::<JsonView>::empty());
    while i < v.len()
        invariant
            all == strs(v@),
            i <= v.len(),
            list_view(out@) == all.take(i as int).map_values(|t: Seq<char>| JsonView::Str(t)),
        decreases v.len() - i,
    {
        let ghost before = out@;
        out.push(Json::Str(v[i].clone()));
        assert(out@.drop_last() =~= before);
        assert(all.take(i + 1) =~= all.take(i as int).push(all[i as int]));
        assert(json_view(out@.last()) == JsonView::Str(all[i as int]));
        assert(list_view(out@) =~= all.take(i + 1).map_values(|t: Seq<char>| JsonView::Str(t)));
        i = i + 1;
    }
    assert(all.take(all.len() as int) =~= all);
    Json::Array(out)
}

fn put_list(fields: &mut Vec<(String, Json)>, key: &str, o: &Option<Vec<String>>)
    ensures
        fields_view(final(fields)@) == with_list(
            fields_view(old(fields)@),
            key@,
            crate::hooks::opt_strs(*o),
        ),
{
    if let Some(v) = o {
        set_field(fields, key, texts_json(v));
    }
}

fn put_stats(fields: &mut Vec<(String, Json)>, key: &str, o: &Option<CompressHookStats>)
    ensures
        fields_view(final(fields)@) == with_stats(fields_view(old(fields)@), key@, *o),
{
    if let Some(s) = o {
        let mut inner: Vec<(String, Json)> = Vec::new();
        assert(fields_view(inner@) =~= Map::<Seq<char>, JsonView>::empty());
        put_count(&mut inner, "before_count", Some(s.before_count));
        put_count(&mut inner, "after_count", Some(s.after_count));
        put_count(&mut inner, "before_tokens", Some(s.before_tokens));
        put_count(&mut inner, "after_tokens", Some(s.after_tokens));
        set_field(fields, key, Json::Object(inner));
    }
}

fn collect_fields(c: &HookContext) -> (fields: Vec<(String, Json)>)
    ensures
        fields_view(fields@) == context_fields(c@),
{
    let mut fields: Vec<(String, Json)> = Vec::new();
    assert(fields_view(fields@) =~= Map::<Seq<char>, JsonView>::empty());
    set_field(&mut fields, "event", Json::Str(c.event.as_str().to_owned()));
    set_field(&mut fields, "session_id", Json::Str(c.session_id.clone()));
    set_field(&mut fields, "agent_name", Json::Str(c.agent_name.clone()));
    set_field(&mut fields, "cwd", Json::Str(c.cwd.clone()));
    put_text(&mut fields, "tool_name", &c.tool_name);
    put_value(&mut fields, "tool_input", &c.tool_input);
    put_text(&mut fields, "tool_output", &c.tool_output);
    put_text(&mut fields, "tool_error", &c.tool_error);
    put_text(&mut fields, "denial_reason", &c.denial_reason);
    put_flag(&mut fields, "retry_allowed", c.retry_allowed);
    put_text(&mut fields, "matcher", &c.matcher);
    put_text(&mut fields, "prompt", &c.prompt);
    put_stats(&mut fields, "compress_stats", &c.compress_stats);
    put_text(&mut fields, "config_path", &c.config_path);
    put_list(&mut fields, "skill_names", &c.skill_names);
    put_list(&mut fields, "batch_tool_names", &c.batch_tool_names);
    put_count(&mut fields, "batch_success_count", c.batch_success_count);
    put_count(&mut fields, "batch_failure_count", c.batch_failure_count);
    put_text(&mut fields, "subagent_name", &c.subagent_name);
    put_text(&mut fields, "subagent_mode", &c.subagent_mode);
    put_text(&mut fields, "subagent_task", &c.subagent_task);
    put_text(&mut fields, "subagent_result", &c.subagent_result);
    put_text(&mut fields, "task_id", &c.task_id);
    put_text(&mut fields, "task_subject", &c.task_subject);
    put_text(&mut fields, "task_result", &c.task_result);
    put_text(&mut fields, "failure_error", &c.failure_error);
    put_text(&mut fields, "failure_category", &c.failure_category);
    put_flag(&mut fields, "stop_hook_active", c.stop_hook_active);
    put_text(&mut fields, "memory_key", &c.memory_key);
    put_text(&mut fields, "memory_source", &c.memory_source);
    put_text(&mut fields, "memory_from_layer", &c.memory_from_layer);
    put_text(&mut fields, "memory_to_layer", &c.memory_to_layer);
    fields
}

/// The context of a hook as JSON.
pub fn context_json(c: &HookContext) -> (r: Json)
    ensures
        r@ == JsonView::Object(context_fields(c@)),
{
    Json::Object(collect_fields(c))
}

/// What the command of a hook reads: the context, and the name of the event once more.
pub fn hook_input(c: &HookContext) -> (r: String)
    ensures
        r@ == json_text(
            JsonView::Object(
                context_fields(c@).insert("hook_event_name"@, JsonView::Str(c@.event.name())),
            ),
        ),
{
    let mut fields = collect_fields(c);
    set_field(&mut fields, "hook_event_name", Json::Str(c.event.as_str().to_owned()));
    let j = Json::Object(fields);
    print(&j)
}

} // verus!
