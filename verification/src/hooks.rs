//! Hook events, the context handed to hooks, and the result that hooks give back.

use vstd::prelude::*;
use crate::json::{Json, JsonView};
use crate::lists::copy_strings;
use crate::text::{join, joined, opt_str, strs};

verus! {

// ── Events ──────────────────────────────────────────────────────────────────────────────────

/// Category of a hook event, which decides what a matcher is compared with.
#[derive(Debug, Clone, Copy, PartialEq, Eq, Structural, Hash)]
pub enum HookEventCategory {
    /// Tool execution; the matcher filters by tool name.
    Tool,
    /// Session lifecycle; the matcher filters by lifecycle hint.
    Lifecycle,
    /// Subagent dispatch; the matcher filters by subagent name.
    Subagent,
    /// Task execution; the matcher filters by task subject.
    Task,
    /// Failures; there is no matcher.
    Error,
    /// Memory and skill evolution; the matcher filters by memory source or layer.
    Evolution,
}

/// When a hook fires in the agent lifecycle.
#[derive(Debug, Clone, Copy, PartialEq, Eq, Structural, Hash)]
pub enum HookEvent {
    /// Before tool execution. Can block or modify input.
    PreToolUse,
    /// After tool execution succeeds.
    PostToolUse,
    /// After tool execution fails.
    PostToolUseFailure,
    /// A permission dialog appears. Can approve or deny.
    PermissionRequest,
    /// After a tool is denied permission. Can signal retry.
    PermissionDenied,
    /// A session begins or resumes.
    SessionStart,
    /// A session terminates.
    SessionEnd,
    /// The agent finishes responding. Can request continuation.
    Stop,
    /// The agent needs user attention.
    Notification,
    /// The user submits a prompt. Can inject context or block.
    UserPromptSubmit,
    /// Before context compression.
    PreCompact,
    /// After context compression.
    PostCompact,
    /// A configuration file changes.
    ConfigChange,
    /// Skills or instructions were loaded.
    InstructionsLoaded,
    /// After a batch of parallel tool calls.
    PostToolBatch,
    /// Before subagent dispatch.
    SubagentStart,
    /// After a subagent completes.
    SubagentStop,
    /// A task was created or scheduled.
    TaskCreated,
    /// A task completed.
    TaskCompleted,
    /// The agent met an unrecoverable error.
    StopFailure,
    /// A plugin was loaded and its components registered.
    PluginLoaded,
    /// A plugin was disabled or unloaded.
    PluginDisabled,
    /// A task timed out.
    TaskTimeout,
    /// A task was cancelled.
    TaskCancelled,
    /// A subagent was cancelled.
    SubagentCancelled,
    /// After a memory is persisted.
    PostMemoryWrite,
    /// After a memory moves between layers.
    MemoryLayerChange,
    /// After a skill candidate is detected.
    SkillCandidateDetected,
    /// After a skill changes its lifecycle state.
    SkillLifecycleTransition,
    /// After a skill health check.
    SkillHealthCheck,
    /// After a skill patch is applied.
    SkillPatchApplied,
    /// After skills are merged.
    SkillMergeApplied,
    /// After a memory is promoted to a rule.
    RulePromoted,
}

/// The number of hook events.
pub const EVENT_COUNT: usize = 33;

impl HookEvent {
    /// The category of the event.
    pub open spec fn category_of(self) -> HookEventCategory {
        match self {
            HookEvent::PreToolUse
            | HookEvent::PostToolUse
            | HookEvent::PostToolUseFailure
            | HookEvent::PermissionRequest
            | HookEvent::PermissionDenied => HookEventCategory::Tool,
            HookEvent::SubagentStart
            | HookEvent::SubagentStop
            | HookEvent::SubagentCancelled => HookEventCategory::Subagent,
            HookEvent::TaskCreated
            | HookEvent::TaskCompleted
            | HookEvent::TaskTimeout
            | HookEvent::TaskCancelled => HookEventCategory::Task,
            HookEvent::StopFailure => HookEventCategory::Error,
            HookEvent::SessionStart
            | HookEvent::SessionEnd
            | HookEvent::Stop
            | HookEvent::Notification
            | HookEvent::UserPromptSubmit
            | HookEvent::PreCompact
            | HookEvent::PostCompact
            | HookEvent::ConfigChange
            | HookEvent::InstructionsLoaded
            | HookEvent::PostToolBatch
            | HookEvent::PluginLoaded
            | HookEvent::PluginDisabled => HookEventCategory::Lifecycle,
            HookEvent::PostMemoryWrite
            | HookEvent::MemoryLayerChange
            | HookEvent::SkillCandidateDetected
            | HookEvent::SkillLifecycleTransition
            | HookEvent::SkillHealthCheck
            | HookEvent::SkillPatchApplied
            | HookEvent::SkillMergeApplied
            | HookEvent::RulePromoted => HookEventCategory::Evolution,
        }
    }

    /// The category of the event.
    pub fn category(self) -> (r: HookEventCategory)
        ensures
            r == self.category_of(),
    {
        match self {
            HookEvent::PreToolUse
            | HookEvent::PostToolUse
            | HookEvent::PostToolUseFailure
            | HookEvent::PermissionRequest
            | HookEvent::PermissionDenied => HookEventCategory::Tool,
            HookEvent::SubagentStart
            | HookEvent::SubagentStop
            | HookEvent::SubagentCancelled => HookEventCategory::Subagent,
            HookEvent::TaskCreated
            | HookEvent::TaskCompleted
            | HookEvent::TaskTimeout
            | HookEvent::TaskCancelled => HookEventCategory::Task,
            HookEvent::StopFailure => HookEventCategory::Error,
            HookEvent::SessionStart
            | HookEvent::SessionEnd
            | HookEvent::Stop
            | HookEvent::Notification
            | HookEvent::UserPromptSubmit
            | HookEvent::PreCompact
            | HookEvent::PostCompact
            | HookEvent::ConfigChange
            | HookEvent::InstructionsLoaded
            | HookEvent::PostToolBatch
            | HookEvent::PluginLoaded
            | HookEvent::PluginDisabled => HookEventCategory::Lifecycle,
            HookEvent::PostMemoryWrite
            | HookEvent::MemoryLayerChange
            | HookEvent::SkillCandidateDetected
            | HookEvent::SkillLifecycleTransition
            | HookEvent::SkillHealthCheck
            | HookEvent::SkillPatchApplied
            | HookEvent::SkillMergeApplied
            | HookEvent::RulePromoted => HookEventCategory::Evolution,
        }
    }

    /// Whether the matcher is compared with the tool name.
    pub fn is_tool_event(self) -> (r: bool)
        ensures
            r == (self.category_of() == HookEventCategory::Tool),
    {
        self.category() == HookEventCategory::Tool
    }

    /// Whether the event supports a matcher: all but the failures do.
    pub fn supports_matcher(self) -> (r: bool)
        ensures
            r == (self.category_of() != HookEventCategory::Error),
    {
        self.category() != HookEventCategory::Error
    }

    /// The name of the event.
    pub open spec fn name(self) -> Seq<char> {
        match self {
            HookEvent::PreToolUse => "PreToolUse"@,
            HookEvent::PostToolUse => "PostToolUse"@,
            HookEvent::PostToolUseFailure => "PostToolUseFailure"@,
            HookEvent::PermissionRequest => "PermissionRequest"@,
            HookEvent::PermissionDenied => "PermissionDenied"@,
            HookEvent::SessionStart => "SessionStart"@,
            HookEvent::SessionEnd => "SessionEnd"@,
            HookEvent::Stop => "Stop"@,
            HookEvent::Notification => "Notification"@,
            HookEvent::UserPromptSubmit => "UserPromptSubmit"@,
            HookEvent::PreCompact => "PreCompact"@,
            HookEvent::PostCompact => "PostCompact"@,
            HookEvent::ConfigChange => "ConfigChange"@,
            HookEvent::InstructionsLoaded => "InstructionsLoaded"@,
            HookEvent::PostToolBatch => "PostToolBatch"@,
            HookEvent::SubagentStart => "SubagentStart"@,
            HookEvent::SubagentStop => "SubagentStop"@,
            HookEvent::TaskCreated => "TaskCreated"@,
            HookEvent::TaskCompleted => "TaskCompleted"@,
            HookEvent::StopFailure => "StopFailure"@,
            HookEvent::PluginLoaded => "PluginLoaded"@,
            HookEvent::PluginDisabled => "PluginDisabled"@,
            HookEvent::TaskTimeout => "TaskTimeout"@,
            HookEvent::TaskCancelled => "TaskCancelled"@,
            HookEvent::SubagentCancelled => "SubagentCancelled"@,
            HookEvent::PostMemoryWrite => "PostMemoryWrite"@,
            HookEvent::MemoryLayerChange => "MemoryLayerChange"@,
            HookEvent::SkillCandidateDetected => "SkillCandidateDetected"@,
            HookEvent::SkillLifecycleTransition => "SkillLifecycleTransition"@,
            HookEvent::SkillHealthCheck => "SkillHealthCheck"@,
            HookEvent::SkillPatchApplied => "SkillPatchApplied"@,
            HookEvent::SkillMergeApplied => "SkillMergeApplied"@,
            HookEvent::RulePromoted => "RulePromoted"@,
        }
    }

    /// The name of the event.
    pub fn as_str(self) -> (r: &'static str)
        ensures
            r@ == self.name(),
    {
        match self {
            HookEvent::PreToolUse => "PreToolUse",
            HookEvent::PostToolUse => "PostToolUse",
            HookEvent::PostToolUseFailure => "PostToolUseFailure",
            HookEvent::PermissionRequest => "PermissionRequest",
            HookEvent::PermissionDenied => "PermissionDenied",
            HookEvent::SessionStart => "SessionStart",
            HookEvent::SessionEnd => "SessionEnd",
            HookEvent::Stop => "Stop",
            HookEvent::Notification => "Notification",
            HookEvent::UserPromptSubmit => "UserPromptSubmit",
            HookEvent::PreCompact => "PreCompact",
            HookEvent::PostCompact => "PostCompact",
            HookEvent::ConfigChange => "ConfigChange",
            HookEvent::InstructionsLoaded => "InstructionsLoaded",
            HookEvent::PostToolBatch => "PostToolBatch",
            HookEvent::SubagentStart => "SubagentStart",
            HookEvent::SubagentStop => "SubagentStop",
            HookEvent::TaskCreated => "TaskCreated",
            HookEvent::TaskCompleted => "TaskCompleted",
            HookEvent::StopFailure => "StopFailure",
            HookEvent::PluginLoaded => "PluginLoaded",
            HookEvent::PluginDisabled => "PluginDisabled",
            HookEvent::TaskTimeout => "TaskTimeout",
            HookEvent::TaskCancelled => "TaskCancelled",
            HookEvent::SubagentCancelled => "SubagentCancelled",
            HookEvent::PostMemoryWrite => "PostMemoryWrite",
            HookEvent::MemoryLayerChange => "MemoryLayerChange",
            HookEvent::SkillCandidateDetected => "SkillCandidateDetected",
            HookEvent::SkillLifecycleTransition => "SkillLifecycleTransition",
            HookEvent::SkillHealthCheck => "SkillHealthCheck",
            HookEvent::SkillPatchApplied => "SkillPatchApplied",
            HookEvent::SkillMergeApplied => "SkillMergeApplied",
            HookEvent::RulePromoted => "RulePromoted",
        }
    }

    /// The position of the event in the list of all events.
    pub open spec fn position(self) -> int {
        match self {
            HookEvent::PreToolUse => 0,
            HookEvent::PostToolUse => 1,
            HookEvent::PostToolUseFailure => 2,
            HookEvent::PermissionRequest => 3,
            HookEvent::PermissionDenied => 4,
            HookEvent::SessionStart => 5,
            HookEvent::SessionEnd => 6,
            HookEvent::Stop => 7,
            HookEvent::Notification => 8,
            HookEvent::UserPromptSubmit => 9,
            HookEvent::PreCompact => 10,
            HookEvent::PostCompact => 11,
            HookEvent::ConfigChange => 12,
            HookEvent::InstructionsLoaded => 13,
            HookEvent::PostToolBatch => 14,
            HookEvent::SubagentStart => 15,
            HookEvent::SubagentStop => 16,
            HookEvent::TaskCreated => 17,
            HookEvent::TaskCompleted => 18,
            HookEvent::StopFailure => 19,
            HookEvent::PluginLoaded => 20,
            HookEvent::PluginDisabled => 21,
            HookEvent::TaskTimeout => 22,
            HookEvent::TaskCancelled => 23,
            HookEvent::SubagentCancelled => 24,
            HookEvent::PostMemoryWrite => 25,
            HookEvent::MemoryLayerChange => 26,
            HookEvent::SkillCandidateDetected => 27,
            HookEvent::SkillLifecycleTransition => 28,
            HookEvent::SkillHealthCheck => 29,
            HookEvent::SkillPatchApplied => 30,
            HookEvent::SkillMergeApplied => 31,
            HookEvent::RulePromoted => 32,
        }
    }

    /// The position of the event in the list of all events.
    pub fn index(self) -> (r: usize)
        ensures
            r == self.position(),
            r < EVENT_COUNT,
    {
        match self {
            HookEvent::PreToolUse => 0,
            HookEvent::PostToolUse => 1,
            HookEvent::PostToolUseFailure => 2,
            HookEvent::PermissionRequest => 3,
            HookEvent::PermissionDenied => 4,
            HookEvent::SessionStart => 5,
            HookEvent::SessionEnd => 6,
            HookEvent::Stop => 7,
            HookEvent::Notification => 8,
            HookEvent::UserPromptSubmit => 9,
            HookEvent::PreCompact => 10,
            HookEvent::PostCompact => 11,
            HookEvent::ConfigChange => 12,
            HookEvent::InstructionsLoaded => 13,
            HookEvent::PostToolBatch => 14,
            HookEvent::SubagentStart => 15,
            HookEvent::SubagentStop => 16,
            HookEvent::TaskCreated => 17,
            HookEvent::TaskCompleted => 18,
            HookEvent::StopFailure => 19,
            HookEvent::PluginLoaded => 20,
            HookEvent::PluginDisabled => 21,
            HookEvent::TaskTimeout => 22,
            HookEvent::TaskCancelled => 23,
            HookEvent::SubagentCancelled => 24,
            HookEvent::PostMemoryWrite => 25,
            HookEvent::MemoryLayerChange => 26,
            HookEvent::SkillCandidateDetected => 27,
            HookEvent::SkillLifecycleTransition => 28,
            HookEvent::SkillHealthCheck => 29,
            HookEvent::SkillPatchApplied => 30,
            HookEvent::SkillMergeApplied => 31,
            HookEvent::RulePromoted => 32,
        }
    }

    /// Different events have different positions.
    pub proof fn lemma_positions_differ(self, other: HookEvent)
        requires
            self.position() == other.position(),
        ensures
            self == other,
    {
    }
}

// ── Context ─────────────────────────────────────────────────────────────────────────────────

/// Compression statistics for the compaction events.
#[derive(Debug, Clone, Copy, PartialEq, Eq, Structural)]
pub struct CompressHookStats {
    pub before_count: usize,
    pub after_count: usize,
    pub before_tokens: usize,
    pub after_tokens: usize,
}

impl Default for CompressHookStats {
    fn default() -> (r: CompressHookStats)
        ensures
            r == (CompressHookStats {
                before_count: 0,
                after_count: 0,
                before_tokens: 0,
                after_tokens: 0,
            }),
    {
        CompressHookStats { before_count: 0, after_count: 0, before_tokens: 0, after_tokens: 0 }
    }
}

/// Data handed to hooks, by event. The working directory is filled in by whoever fires the event.
pub struct HookContext {
    /// The event that fired.
    pub event: HookEvent,
    /// Session identifier.
    pub session_id: String,
    /// Agent name.
    pub agent_name: String,
    /// Working directory at the time of the event.
    pub cwd: String,
    /// Tool name, for tool events.
    pub tool_name: Option<String>,
    /// Tool input, for tool events.
    pub tool_input: Option<Json>,
    /// Tool output, after success.
    pub tool_output: Option<String>,
    /// Tool error message, after failure.
    pub tool_error: Option<String>,
    /// Why the permission was denied.
    pub denial_reason: Option<String>,
    /// Whether the model may retry with different parameters.
    pub retry_allowed: Option<bool>,
    /// Matcher hint of the event.
    pub matcher: Option<String>,
    /// User prompt text.
    pub prompt: Option<String>,
    /// Compression statistics.
    pub compress_stats: Option<CompressHookStats>,
    /// Changed configuration file.
    pub config_path: Option<String>,
    /// Names of the loaded skills.
    pub skill_names: Option<Vec<String>>,
    /// Tool names of a batch.
    pub batch_tool_names: Option<Vec<String>>,
    /// How many tools of a batch succeeded.
    pub batch_success_count: Option<usize>,
    /// How many tools of a batch failed.
    pub batch_failure_count: Option<usize>,
    /// Subagent name.
    pub subagent_name: Option<String>,
    /// Subagent execution mode.
    pub subagent_mode: Option<String>,
    /// Subagent task description.
    pub subagent_task: Option<String>,
    /// Subagent result summary.
    pub subagent_result: Option<String>,
    /// Task identifier.
    pub task_id: Option<String>,
    /// Task subject.
    pub task_subject: Option<String>,
    /// Task result summary.
    pub task_result: Option<String>,
    /// Message of an unrecoverable error.
    pub failure_error: Option<String>,
    /// Category of an unrecoverable error.
    pub failure_category: Option<String>,
    /// Whether this stop hook is being invoked again.
    pub stop_hook_active: Option<bool>,
    /// Key of a memory.
    pub memory_key: Option<String>,
    /// What wrote a memory.
    pub memory_source: Option<String>,
    /// Layer that a memory left.
    pub memory_from_layer: Option<String>,
    /// Layer that a memory entered.
    pub memory_to_layer: Option<String>,
}

/// What a hook context holds.
#[verifier::ext_equal]
pub struct ContextView {
    pub event: HookEvent,
    pub session_id: Seq<char>,
    pub agent_name: Seq<char>,
    pub cwd: Seq<char>,
    pub tool_name: Option<Seq<char>>,
    pub tool_input: Option<JsonView>,
    pub tool_output: Option<Seq<char>>,
    pub tool_error: Option<Seq<char>>,
    pub denial_reason: Option<Seq<char>>,
    pub retry_allowed: Option<bool>,
    pub matcher: Option<Seq<char>>,
    pub prompt: Option<Seq<char>>,
    pub compress_stats: Option<CompressHookStats>,
    pub config_path: Option<Seq<char>>,
    pub skill_names: Option<Seq<Seq<char>>>,
    pub batch_tool_names: Option<Seq<Seq<char>>>,
    pub batch_success_count: Option<usize>,
    pub batch_failure_count: Option<usize>,
    pub subagent_name: Option<Seq<char>>,
    pub subagent_mode: Option<Seq<char>>,
    pub subagent_task: Option<Seq<char>>,
    pub subagent_result: Option<Seq<char>>,
    pub task_id: Option<Seq<char>>,
    pub task_subject: Option<Seq<char>>,
    pub task_result: Option<Seq<char>>,
    pub failure_error: Option<Seq<char>>,
    pub failure_category: Option<Seq<char>>,
    pub stop_hook_active: Option<bool>,
    pub memory_key: Option<Seq<char>>,
    pub memory_source: Option<Seq<char>>,
    pub memory_from_layer: Option<Seq<char>>,
    pub memory_to_layer: Option<Seq<char>>,
}

/// What an optional JSON value holds.
pub open spec fn opt_json(o: Option<Json>) -> Option<JsonView> {
    match o {
        Some(j) => Some(j@),
        None => None,
    }
}

/// The characters of each string of an optional list.
pub open spec fn opt_strs(o: Option<Vec<String>>) -> Option<Seq<Seq<char>>> {
    match o {
        Some(v) => Some(strs(v@)),
        None => None,
    }
}

/// The characters of an optional string slice.
pub open spec fn opt_slice(o: Option<&str>) -> Option<Seq<char>> {
    match o {
        Some(s) => Some(s@),
        None => None,
    }
}

impl View for HookContext {
    type V = ContextView;

    open spec fn view(&self) -> ContextView {
        ContextView {
            event: self.event,
            session_id: self.session_id@,
            agent_name: self.agent_name@,
            cwd: self.cwd@,
            tool_name: opt_str(self.tool_name),
            tool_input: opt_json(self.tool_input),
            tool_output: opt_str(self.tool_output),
            tool_error: opt_str(self.tool_error),
            denial_reason: opt_str(self.denial_reason),
            retry_allowed: self.retry_allowed,
            matcher: opt_str(self.matcher),
            prompt: opt_str(self.prompt),
            compress_stats: self.compress_stats,
            config_path: opt_str(self.config_path),
            skill_names: opt_strs(self.skill_names),
            batch_tool_names: opt_strs(self.batch_tool_names),
            batch_success_count: self.batch_success_count,
            batch_failure_count: self.batch_failure_count,
            subagent_name: opt_str(self.subagent_name),
            subagent_mode: opt_str(self.subagent_mode),
            subagent_task: opt_str(self.subagent_task),
            subagent_result: opt_str(self.subagent_result),
            task_id: opt_str(self.task_id),
            task_subject: opt_str(self.task_subject),
            task_result: opt_str(self.task_result),
            failure_error: opt_str(self.failure_error),
            failure_category: opt_str(self.failure_category),
            stop_hook_active: self.stop_hook_active,
            memory_key: opt_str(self.memory_key),
            memory_source: opt_str(self.memory_source),
            memory_from_layer: opt_str(self.memory_from_layer),
            memory_to_layer: opt_str(self.memory_to_layer),
        }
    }
}

/// A context with nothing but the event, the session and the agent.
pub open spec fn blank(event: HookEvent, session_id: Seq<char>, agent_name: Seq<char>) -> ContextView {
    ContextView {
        event,
        session_id,
        agent_name,
        cwd: Seq::empty(),
        tool_name: None,
        tool_input: None,
        tool_output: None,
        tool_error: None,
        denial_reason: None,
        retry_allowed: None,
        matcher: None,
        prompt: None,
        compress_stats: None,
        config_path: None,
        skill_names: None,
        batch_tool_names: None,
        batch_success_count: None,
        batch_failure_count: None,
        subagent_name: None,
        subagent_mode: None,
        subagent_task: None,
        subagent_result: None,
        task_id: None,
        task_subject: None,
        task_result: None,
        failure_error: None,
        failure_category: None,
        stop_hook_active: None,
        memory_key: None,
        memory_source: None,
        memory_from_layer: None,
        memory_to_layer: None,
    }
}

fn own(s: Option<&str>) -> (r: Option<String>)
    ensures
        opt_str(r) == opt_slice(s),
{
    match s {
        Some(t) => Some(t.to_owned()),
        None => None,
    }
}

impl HookContext {
    /// A context with nothing but the event, the session and the agent.
    fn of(event: HookEvent, session_id: &str, agent_name: &str) -> (r: HookContext)
        ensures
            r@ == blank(event, session_id@, agent_name@),
    {
        HookContext {
            event,
            session_id: session_id.to_owned(),
            agent_name: agent_name.to_owned(),
            cwd: String::new(),
            tool_name: None,
            tool_input: None,
            tool_output: None,
            tool_error: None,
            denial_reason: None,
            retry_allowed: None,
            matcher: None,
            prompt: None,
            compress_stats: None,
            config_path: None,
            skill_names: None,
            batch_tool_names: None,
            batch_success_count: None,
            batch_failure_count: None,
            subagent_name: None,
            subagent_mode: None,
            subagent_task: None,
            subagent_result: None,
            task_id: None,
            task_subject: None,
            task_result: None,
            failure_error: None,
            failure_category: None,
            stop_hook_active: None,
            memory_key: None,
            memory_source: None,
            memory_from_layer: None,
            memory_to_layer: None,
        }
    }

    /// The context with the given working directory.
    pub fn with_cwd(self, cwd: &str) -> (r: HookContext)
        ensures
            r@ == (ContextView { cwd: cwd@, ..self@ }),
    {
        let mut r = self;
        r.cwd = cwd.to_owned();
        r
    }

    /// The context before a tool runs.
    pub fn for_pre_tool_use(
        tool_name: &str,
        tool_input: &Json,
        session_id: &str,
        agent_name: &str,
    ) -> (r: HookContext)
        ensures
            r@ == (ContextView {
                tool_name: Some(tool_name@),
                tool_input: Some(tool_input@),
                ..blank(HookEvent::PreToolUse, session_id@, agent_name@)
            }),
    {
        let mut r = HookContext::of(HookEvent::PreToolUse, session_id, agent_name);
        r.tool_name = Some(tool_name.to_owned());
        r.tool_input = Some(tool_input.copy());
        r
    }

    /// The context after a tool succeeded.
    pub fn for_post_tool_use(
        tool_name: &str,
        tool_input: &Json,
        tool_output: &str,
        session_id: &str,
        agent_name: &str,
    ) -> (r: HookContext)
        ensures
            r@ == (ContextView {
                tool_name: Some(tool_name@),
                tool_input: Some(tool_input@),
                tool_output: Some(tool_output@),
                ..blank(HookEvent::PostToolUse, session_id@, agent_name@)
            }),
    {
        let mut r = HookContext::of(HookEvent::PostToolUse, session_id, agent_name);
        r.tool_name = Some(tool_name.to_owned());
        r.tool_input = Some(tool_input.copy());
        r.tool_output = Some(tool_output.to_owned());
        r
    }

    /// The context after a tool failed.
    pub fn for_post_tool_use_failure(
        tool_name: &str,
        tool_input: &Json,
        tool_error: &str,
        session_id: &str,
        agent_name: &str,
    ) -> (r: HookContext)
        ensures
            r@ == (ContextView {
                tool_name: Some(tool_name@),
                tool_input: Some(tool_input@),
                tool_error: Some(tool_error@),
                ..blank(HookEvent::PostToolUseFailure, session_id@, agent_name@)
            }),
    {
        let mut r = HookContext::of(HookEvent::PostToolUseFailure, session_id, agent_name);
        r.tool_name = Some(tool_name.to_owned());
        r.tool_input = Some(tool_input.copy());
        r.tool_error = Some(tool_error.to_owned());
        r
    }

    /// The context of a permission dialog.
    pub fn for_permission_request(
        tool_name: &str,
        tool_input: &Json,
        session_id: &str,
        agent_name: &str,
    ) -> (r: HookContext)
        ensures
            r@ == (ContextView {
                tool_name: Some(tool_name@),
                tool_input: Some(tool_input@),
                ..blank(HookEvent::PermissionRequest, session_id@, agent_name@)
            }),
    {
        let mut r = HookContext::of(HookEvent::PermissionRequest, session_id, agent_name);
        r.tool_name = Some(tool_name.to_owned());
        r.tool_input = Some(tool_input.copy());
        r
    }

    /// The context after a denied permission.
    pub fn for_permission_denied(
        tool_name: &str,
        tool_input: &Json,
        denial_reason: &str,
        retry_allowed: bool,
        session_id: &str,
        agent_name: &str,
    ) -> (r: HookContext)
        ensures
            r@ == (ContextView {
                tool_name: Some(tool_name@),
                tool_input: Some(tool_input@),
                denial_reason: Some(denial_reason@),
                retry_allowed: Some(retry_allowed),
                ..blank(HookEvent::PermissionDenied, session_id@, agent_name@)
            }),
    {
        let mut r = HookContext::of(HookEvent::PermissionDenied, session_id, agent_name);
        r.tool_name = Some(tool_name.to_owned());
        r.tool_input = Some(tool_input.copy());
        r.denial_reason = Some(denial_reason.to_owned());
        r.retry_allowed = Some(retry_allowed);
        r
    }

    /// The context of a session that begins.
    pub fn for_session_start(
        matcher: &str,
        session_id: &str,
        agent_name: &str,
    ) -> (r: HookContext)
        ensures
            r@ == (ContextView {
                matcher: Some(matcher@),
                ..blank(HookEvent::SessionStart, session_id@, agent_name@)
            }),
    {
        let mut r = HookContext::of(HookEvent::SessionStart, session_id, agent_name);
        r.matcher = Some(matcher.to_owned());
        r
    }

    /// The context of a session that ends.
    pub fn for_session_end(
        matcher: &str,
        session_id: &str,
        agent_name: &str,
    ) -> (r: HookContext)
        ensures
            r@ == (ContextView {
                matcher: Some(matcher@),
                ..blank(HookEvent::SessionEnd, session_id@, agent_name@)
            }),
    {
        let mut r = HookContext::of(HookEvent::SessionEnd, session_id, agent_name);
        r.matcher = Some(matcher.to_owned());
        r
    }

    /// The context of an event without a constructor of its own.
    pub fn for_lifecycle(
        event: HookEvent,
        matcher: &str,
        session_id: &str,
        agent_name: &str,
    ) -> (r: HookContext)
        ensures
            r@ == (ContextView {
                matcher: Some(matcher@),
                ..blank(event, session_id@, agent_name@)
            }),
    {
        let mut r = HookContext::of(event, session_id, agent_name);
        r.matcher = Some(matcher.to_owned());
        r
    }

    /// The context of an agent that finishes.
    pub fn for_stop(
        matcher: Option<&str>,
        session_id: &str,
        agent_name: &str,
        stop_hook_active: bool,
    ) -> (r: HookContext)
        ensures
            r@ == (ContextView {
                matcher: opt_slice(matcher),
                stop_hook_active: Some(stop_hook_active),
                ..blank(HookEvent::Stop, session_id@, agent_name@)
            }),
    {
        let mut r = HookContext::of(HookEvent::Stop, session_id, agent_name);
        r.matcher = own(matcher);
        r.stop_hook_active = Some(stop_hook_active);
        r
    }

    /// The context of a notification.
    pub fn for_notification(
        matcher: &str,
        session_id: &str,
        agent_name: &str,
    ) -> (r: HookContext)
        ensures
            r@ == (ContextView {
                matcher: Some(matcher@),
                ..blank(HookEvent::Notification, session_id@, agent_name@)
            }),
    {
        let mut r = HookContext::of(HookEvent::Notification, session_id, agent_name);
        r.matcher = Some(matcher.to_owned());
        r
    }

    /// The context of a submitted prompt.
    pub fn for_user_prompt_submit(
        prompt: &str,
        matcher: Option<&str>,
        session_id: &str,
        agent_name: &str,
    ) -> (r: HookContext)
        ensures
            r@ == (ContextView {
                matcher: opt_slice(matcher),
                prompt: Some(prompt@),
                ..blank(HookEvent::UserPromptSubmit, session_id@, agent_name@)
            }),
    {
        let mut r = HookContext::of(HookEvent::UserPromptSubmit, session_id, agent_name);
        r.matcher = own(matcher);
        r.prompt = Some(prompt.to_owned());
        r
    }

    /// The context before a compaction.
    pub fn for_pre_compact(
        stats: &CompressHookStats,
        matcher: &str,
        session_id: &str,
        agent_name: &str,
    ) -> (r: HookContext)
        ensures
            r@ == (ContextView {
                matcher: Some(matcher@),
                compress_stats: Some(*stats),
                ..blank(HookEvent::PreCompact, session_id@, agent_name@)
            }),
    {
        let mut r = HookContext::of(HookEvent::PreCompact, session_id, agent_name);
        r.matcher = Some(matcher.to_owned());
        r.compress_stats = Some(*stats);
        r
    }

    /// The context after a compaction.
    pub fn for_post_compact(
        stats: &CompressHookStats,
        matcher: &str,
        session_id: &str,
        agent_name: &str,
    ) -> (r: HookContext)
        ensures
            r@ == (ContextView {
                matcher: Some(matcher@),
                compress_stats: Some(*stats),
                ..blank(HookEvent::PostCompact, session_id@, agent_name@)
            }),
    {
        let mut r = HookContext::of(HookEvent::PostCompact, session_id, agent_name);
        r.matcher = Some(matcher.to_owned());
        r.compress_stats = Some(*stats);
        r
    }

    /// The context of a changed configuration file.
    pub fn for_config_change(
        config_path: &str,
        matcher: Option<&str>,
        session_id: &str,
        agent_name: &str,
    ) -> (r: HookContext)
        ensures
            r@ == (ContextView {
                matcher: opt_slice(matcher),
                config_path: Some(config_path@),
                ..blank(HookEvent::ConfigChange, session_id@, agent_name@)
            }),
    {
        let mut r = HookContext::of(HookEvent::ConfigChange, session_id, agent_name);
        r.matcher = own(matcher);
        r.config_path = Some(config_path.to_owned());
        r
    }

    /// The context of loaded instructions.
    pub fn for_instructions_loaded(
        matcher: &str,
        skill_names: &Vec<String>,
        session_id: &str,
        agent_name: &str,
    ) -> (r: HookContext)
        ensures
            r@ == (ContextView {
                matcher: Some(matcher@),
                skill_names: Some(strs(skill_names@)),
                ..blank(HookEvent::InstructionsLoaded, session_id@, agent_name@)
            }),
    {
        let mut r = HookContext::of(HookEvent::InstructionsLoaded, session_id, agent_name);
        r.matcher = Some(matcher.to_owned());
        r.skill_names = Some(copy_strings(skill_names));
        r
    }

    /// The context after a batch of tool calls; the matcher hint lists the tools.
    pub fn for_post_tool_batch(
        batch_tool_names: &Vec<String>,
        success_count: usize,
        failure_count: usize,
        session_id: &str,
        agent_name: &str,
    ) -> (r: HookContext)
        ensures
            r@ == (ContextView {
                matcher: Some(join(strs(batch_tool_names@), "|"@)),
                batch_tool_names: Some(strs(batch_tool_names@)),
                batch_success_count: Some(success_count),
                batch_failure_count: Some(failure_count),
                ..blank(HookEvent::PostToolBatch, session_id@, agent_name@)
            }),
    {
        let mut r = HookContext::of(HookEvent::PostToolBatch, session_id, agent_name);
        r.matcher = Some(joined(batch_tool_names, "|"));
        r.batch_tool_names = Some(copy_strings(batch_tool_names));
        r.batch_success_count = Some(success_count);
        r.batch_failure_count = Some(failure_count);
        r
    }

    /// The context before a subagent runs.
    pub fn for_subagent_start(
        subagent_name: &str,
        subagent_mode: &str,
        task: &str,
        session_id: &str,
        agent_name: &str,
    ) -> (r: HookContext)
        ensures
            r@ == (ContextView {
                matcher: Some(subagent_name@),
                subagent_name: Some(subagent_name@),
                subagent_mode: Some(subagent_mode@),
                subagent_task: Some(task@),
                ..blank(HookEvent::SubagentStart, session_id@, agent_name@)
            }),
    {
        let mut r = HookContext::of(HookEvent::SubagentStart, session_id, agent_name);
        r.matcher = Some(subagent_name.to_owned());
        r.subagent_name = Some(subagent_name.to_owned());
        r.subagent_mode = Some(subagent_mode.to_owned());
        r.subagent_task = Some(task.to_owned());
        r
    }

    /// The context after a subagent ran.
    pub fn for_subagent_stop(
        subagent_name: &str,
        subagent_mode: &str,
        result: &str,
        session_id: &str,
        agent_name: &str,
    ) -> (r: HookContext)
        ensures
            r@ == (ContextView {
                matcher: Some(subagent_name@),
                subagent_name: Some(subagent_name@),
                subagent_mode: Some(subagent_mode@),
                subagent_result: Some(result@),
                ..blank(HookEvent::SubagentStop, session_id@, agent_name@)
            }),
    {
        let mut r = HookContext::of(HookEvent::SubagentStop, session_id, agent_name);
        r.matcher = Some(subagent_name.to_owned());
        r.subagent_name = Some(subagent_name.to_owned());
        r.subagent_mode = Some(subagent_mode.to_owned());
        r.subagent_result = Some(result.to_owned());
        r
    }

    /// The context of a new task.
    pub fn for_task_created(
        task_id: &str,
        task_subject: &str,
        session_id: &str,
        agent_name: &str,
    ) -> (r: HookContext)
        ensures
            r@ == (ContextView {
                matcher: Some(task_subject@),
                task_id: Some(task_id@),
                task_subject: Some(task_subject@),
                ..blank(HookEvent::TaskCreated, session_id@, agent_name@)
            }),
    {
        let mut r = HookContext::of(HookEvent::TaskCreated, session_id, agent_name);
        r.matcher = Some(task_subject.to_owned());
        r.task_id = Some(task_id.to_owned());
        r.task_subject = Some(task_subject.to_owned());
        r
    }

    /// The context of a completed task.
    pub fn for_task_completed(
        task_id: &str,
        task_subject: &str,
        result: &str,
        session_id: &str,
        agent_name: &str,
    ) -> (r: HookContext)
        ensures
            r@ == (ContextView {
                matcher: Some(task_subject@),
                task_id: Some(task_id@),
                task_subject: Some(task_subject@),
                task_result: Some(result@),
                ..blank(HookEvent::TaskCompleted, session_id@, agent_name@)
            }),
    {
        let mut r = HookContext::of(HookEvent::TaskCompleted, session_id, agent_name);
        r.matcher = Some(task_subject.to_owned());
        r.task_id = Some(task_id.to_owned());
        r.task_subject = Some(task_subject.to_owned());
        r.task_result = Some(result.to_owned());
        r
    }

    /// The context of an unrecoverable error.
    pub fn for_stop_failure(
        failure_error: &str,
        failure_category: &str,
        session_id: &str,
        agent_name: &str,
    ) -> (r: HookContext)
        ensures
            r@ == (ContextView {
                failure_error: Some(failure_error@),
                failure_category: Some(failure_category@),
                ..blank(HookEvent::StopFailure, session_id@, agent_name@)
            }),
    {
        let mut r = HookContext::of(HookEvent::StopFailure, session_id, agent_name);
        r.failure_error = Some(failure_error.to_owned());
        r.failure_category = Some(failure_category.to_owned());
        r
    }

    /// The context of a persisted memory.
    pub fn for_post_memory_write(
        memory_key: &str,
        memory_source: &str,
        session_id: &str,
        agent_name: &str,
    ) -> (r: HookContext)
        ensures
            r@ == (ContextView {
                matcher: Some(memory_source@),
                memory_key: Some(memory_key@),
                memory_source: Some(memory_source@),
                ..blank(HookEvent::PostMemoryWrite, session_id@, agent_name@)
            }),
    {
        let mut r = HookContext::of(HookEvent::PostMemoryWrite, session_id, agent_name);
        r.matcher = Some(memory_source.to_owned());
        r.memory_key = Some(memory_key.to_owned());
        r.memory_source = Some(memory_source.to_owned());
        r
    }

    /// The context of a memory that changed its layer.
    pub fn for_memory_layer_change(
        memory_key: &str,
        from_layer: &str,
        to_layer: &str,
        session_id: &str,
        agent_name: &str,
    ) -> (r: HookContext)
        ensures
            r@ == (ContextView {
                matcher: Some(from_layer@ + "->"@ + to_layer@),
                memory_key: Some(memory_key@),
                memory_from_layer: Some(from_layer@),
                memory_to_layer: Some(to_layer@),
                ..blank(HookEvent::MemoryLayerChange, session_id@, agent_name@)
            }),
    {
        let mut r = HookContext::of(HookEvent::MemoryLayerChange, session_id, agent_name);
        let mut hint = from_layer.to_owned();
        hint.push_str("->");
        hint.push_str(to_layer);
        r.matcher = Some(hint);
        r.memory_key = Some(memory_key.to_owned());
        r.memory_from_layer = Some(from_layer.to_owned());
        r.memory_to_layer = Some(to_layer.to_owned());
        r
    }

}

// ── Permissions ─────────────────────────────────────────────────────────────────────────────

/// Decision on a request for permission.
#[derive(Debug)]
pub enum PermissionDecision {
    /// The action is allowed.
    Allow,
    /// The action is denied.
    Deny { reason: String },
    /// The user is asked, with the given suggestions.
    Ask { suggestions: Vec<String> },
    /// The action needs approval.
    RequireApproval,
}

/// What a decision holds.
pub enum DecisionView {
    Allow,
    Deny(Seq<char>),
    Ask(Seq<Seq<char>>),
    RequireApproval,
}

impl View for PermissionDecision {
    type V = DecisionView;

    open spec fn view(&self) -> DecisionView {
        match self {
            PermissionDecision::Allow => DecisionView::Allow,
            PermissionDecision::Deny { reason } => DecisionView::Deny(reason@),
            PermissionDecision::Ask { suggestions } => DecisionView::Ask(strs(suggestions@)),
            PermissionDecision::RequireApproval => DecisionView::RequireApproval,
        }
    }
}

impl PermissionDecision {
    /// Whether the action is allowed.
    pub fn is_allowed(&self) -> (r: bool)
        ensures
            r == (self@ is Allow),
    {
        matches!(self, PermissionDecision::Allow)
    }

    /// Whether the action is denied.
    pub fn is_denied(&self) -> (r: bool)
        ensures
            r == (self@ is Deny),
    {
        matches!(self, PermissionDecision::Deny { .. })
    }

    /// Whether somebody has to approve the action.
    pub fn requires_approval(&self) -> (r: bool)
        ensures
            r == (self@ is Ask || self@ is RequireApproval),
    {
        matches!(self, PermissionDecision::Ask { .. } | PermissionDecision::RequireApproval)
    }
}

/// How permissions are handled.
#[derive(Debug, Clone, Copy, PartialEq, Eq, Structural)]
pub enum PermissionMode {
    Default,
    Plan,
    Auto,
    AcceptEdits,
    BypassPermissions,
}

// ── Results ─────────────────────────────────────────────────────────────────────────────────

/// Result of executing hooks.
pub struct HookResult {
    /// Whether the operation is to be blocked.
    pub block: bool,
    /// Why it is to be blocked.
    pub block_reason: Option<String>,
    /// Tool input that replaces the given one.
    pub updated_input: Option<Json>,
    /// Messages to inject into the context.
    pub messages: Vec<String>,
    /// Whether no further hook is to run.
    pub stop_propagation: bool,
    /// Decision on a permission.
    pub permission_decision: Option<PermissionDecision>,
    /// Permission mode that replaces the current one.
    pub permission_mode_override: Option<PermissionMode>,
    /// Why the agent is to continue instead of stopping.
    pub continue_reason: Option<String>,
    /// Context to inject.
    pub injected_context: Option<String>,
    /// Whether the model may retry with different parameters.
    pub retry: bool,
    /// Further data from hooks.
    pub metadata: Option<Json>,
}

/// What a hook result holds.
#[verifier::ext_equal]
pub struct ResultView {
    pub block: bool,
    pub block_reason: Option<Seq<char>>,
    pub updated_input: Option<JsonView>,
    pub messages: Seq<Seq<char>>,
    pub stop_propagation: bool,
    pub permission_decision: Option<DecisionView>,
    pub permission_mode_override: Option<PermissionMode>,
    pub continue_reason: Option<Seq<char>>,
    pub injected_context: Option<Seq<char>>,
    pub retry: bool,
    pub metadata: Option<JsonView>,
}

/// What an optional decision holds.
pub open spec fn opt_decision(o: Option<PermissionDecision>) -> Option<DecisionView> {
    match o {
        Some(d) => Some(d@),
        None => None,
    }
}

impl View for HookResult {
    type V = ResultView;

    open spec fn view(&self) -> ResultView {
        ResultView {
            block: self.block,
            block_reason: opt_str(self.block_reason),
            updated_input: opt_json(self.updated_input),
            messages: strs(self.messages@),
            stop_propagation: self.stop_propagation,
            permission_decision: opt_decision(self.permission_decision),
            permission_mode_override: self.permission_mode_override,
            continue_reason: opt_str(self.continue_reason),
            injected_context: opt_str(self.injected_context),
            retry: self.retry,
            metadata: opt_json(self.metadata),
        }
    }
}

/// The result of a hook that has nothing to say.
pub open spec fn neutral() -> ResultView {
    ResultView {
        block: false,
        block_reason: None,
        updated_input: None,
        messages: Seq::empty(),
        stop_propagation: false,
        permission_decision: None,
        permission_mode_override: None,
        continue_reason: None,
        injected_context: None,
        retry: false,
        metadata: None,
    }
}

impl Default for HookResult {
    fn default() -> (r: HookResult)
        ensures
            r@ == neutral(),
    {
        let messages: Vec<String> = Vec::new();
        assert(strs(messages@) == Seq::<Seq<char>>::empty());
        HookResult {
            block: false,
            block_reason: None,
            updated_input: None,
            messages,
            stop_propagation: false,
            permission_decision: None,
            permission_mode_override: None,
            continue_reason: None,
            injected_context: None,
            retry: false,
            metadata: None,
        }
    }
}

impl HookResult {
    /// A result that allows.
    pub fn allow() -> (r: HookResult)
        ensures
            r@ == (ResultView { permission_decision: Some(DecisionView::Allow), ..neutral() }),
    {
        let mut r: HookResult = Default::default();
        r.permission_decision = Some(PermissionDecision::Allow);
        r
    }

    /// A result that denies and blocks.
    pub fn deny(reason: String) -> (r: HookResult)
        ensures
            r@ == (ResultView {
                block: true,
                block_reason: Some(reason@),
                permission_decision: Some(DecisionView::Deny(reason@)),
                ..neutral()
            }),
    {
        let mut r: HookResult = Default::default();
        r.block = true;
        r.block_reason = Some(reason.clone());
        r.permission_decision = Some(PermissionDecision::Deny { reason });
        r
    }

    /// A result that asks.
    pub fn ask(suggestions: Vec<String>) -> (r: HookResult)
        ensures
            r@ == (ResultView {
                permission_decision: Some(DecisionView::Ask(strs(suggestions@))),
                ..neutral()
            }),
    {
        let mut r: HookResult = Default::default();
        r.permission_decision = Some(PermissionDecision::Ask { suggestions });
        r
    }

    /// Whether a decision on a permission was made.
    pub fn has_permission_decision(&self) -> (r: bool)
        ensures
            r == (self@.permission_decision is Some),
    {
        self.permission_decision.is_some()
    }

    /// Whether the agent is to continue working.
    pub fn should_continue(&self) -> (r: bool)
        ensures
            r == (self@.continue_reason is Some),
    {
        self.continue_reason.is_some()
    }
}

/// Where hooks were registered from.
#[derive(Debug, PartialEq, Eq, Hash)]
pub enum HookSource {
    /// A skill.
    Skill(String),
    /// The configuration of the user.
    UserConfig,
    /// A plugin.
    Plugin(String),
}

impl HookSource {
    /// The label of a source.
    pub open spec fn text(&self) -> Seq<char> {
        match self {
            HookSource::Skill(name) => "skill:"@ + name@,
            HookSource::UserConfig => "user_config"@,
            HookSource::Plugin(name) => "plugin:"@ + name@,
        }
    }

    /// The label of a source.
    pub fn label(&self) -> (r: String)
        ensures
            r@ == self.text(),
    {
        match self {
            HookSource::Skill(name) => {
                let mut r = "skill:".to_owned();
                r.push_str(name.as_str());
                r
            },
            HookSource::UserConfig => "user_config".to_owned(),
            HookSource::Plugin(name) => {
                let mut r = "plugin:".to_owned();
                r.push_str(name.as_str());
                r
            },
        }
    }
}

} // verus!
