//! Events of an agent, what a client gets to see of them, and the course of a chat.

use vstd::prelude::*;
use crate::error::AppError;
use crate::json::{fields_view, set_field, Json, JsonView};
use crate::lists::copy_opt;
use crate::text::{concat, opt_str};

verus! {

/// What happens while an agent works.
pub enum AgentEvent {
    /// A piece of the answer of the model.
    Token(String),
    /// The model starts to think.
    ThinkStart,
    /// The model has thought.
    ThinkEnd { prompt_tokens: usize, completion_tokens: usize },
    /// A tool is called.
    ToolCall { tool_call_id: String, name: String, args: Json },
    /// A tool has succeeded.
    ToolResult { tool_call_id: String, name: String, output: String },
    /// A tool has failed.
    ToolError { tool_call_id: String, name: String, error: String },
    /// A tool reports while it runs; the report is held as text.
    ToolStream { tool_call_id: String, name: String, event: String },
    /// A guard was triggered.
    GuardTriggered { guard: String, blocked: bool },
    /// Memories were recalled.
    MemoryRecalled { count: usize },
    /// The context was compressed.
    ContextCompressed {
        before_count: usize,
        after_count: usize,
        before_tokens: usize,
        after_tokens: usize,
    },
    /// A chart.
    Chart { spec: Json },
    /// A failure that is not that of a tool.
    Error { source: String, message: String },
    /// The agent is about to do something the user should know of.
    SafetyNotice { action: String, reason: String, risk: String, permission: String },
    /// A parameter of a tool has the wrong type.
    ParameterError { tool: String, parameter: String, expected: String, got: String },
    /// The final answer.
    FinalAnswer(String),
    /// The work was cancelled.
    Cancelled,
}

/// The phase of the work that an event belongs to.
#[derive(Debug, Clone, Copy, PartialEq, Eq, Structural)]
pub enum AgentPhase {
    /// The model thinks.
    Thinking,
    /// Tools run.
    Acting,
    /// The work is over.
    Terminal,
}

impl AgentEvent {
    /// The tokens of the prompt, where the model has thought.
    pub fn prompt_tokens(&self) -> (r: Option<usize>)
        ensures
            r == match self {
                AgentEvent::ThinkEnd { prompt_tokens, .. } => Some(*prompt_tokens),
                _ => None,
            },
    {
        match self {
            AgentEvent::ThinkEnd { prompt_tokens, completion_tokens } => Some(*prompt_tokens),
            _ => None,
        }
    }

    /// The tokens of the answer, where the model has thought.
    pub fn completion_tokens(&self) -> (r: Option<usize>)
        ensures
            r == match self {
                AgentEvent::ThinkEnd { completion_tokens, .. } => Some(*completion_tokens),
                _ => None,
            },
    {
        match self {
            AgentEvent::ThinkEnd { prompt_tokens, completion_tokens } => Some(*completion_tokens),
            _ => None,
        }
    }

    /// The number of all tokens, where the model has thought.
    pub open spec fn all_tokens(&self) -> Option<int> {
        match self {
            AgentEvent::ThinkEnd { prompt_tokens, completion_tokens } => Some(
                *prompt_tokens + *completion_tokens,
            ),
            _ => None,
        }
    }

    /// The number of all tokens, where the model has thought.
    pub fn total_tokens(&self) -> (r: Option<usize>)
        requires
            self.all_tokens() is Some ==> self.all_tokens()->0 <= usize::MAX,
        ensures
            match r {
                Some(n) => self.all_tokens() == Some(n as int),
                None => self.all_tokens() is None,
            },
    {
        match self {
            AgentEvent::ThinkEnd { prompt_tokens, completion_tokens } => Some(
                *prompt_tokens + *completion_tokens,
            ),
            _ => None,
        }
    }

    /// The number of all tokens, where the model has thought.
    pub fn tokens_used(&self) -> (r: Option<usize>)
        requires
            self.all_tokens() is Some ==> self.all_tokens()->0 <= usize::MAX,
        ensures
            match r {
                Some(n) => self.all_tokens() == Some(n as int),
                None => self.all_tokens() is None,
            },
    {
        self.total_tokens()
    }

    /// The phase that the event belongs to.
    pub open spec fn phase_of(&self) -> AgentPhase {
        match self {
            AgentEvent::Token(_)
            | AgentEvent::ThinkStart
            | AgentEvent::ThinkEnd { .. }
            | AgentEvent::MemoryRecalled { .. }
            | AgentEvent::ContextCompressed { .. }
            | AgentEvent::Chart { .. } => AgentPhase::Thinking,
            AgentEvent::ToolCall { .. }
            | AgentEvent::ToolResult { .. }
            | AgentEvent::ToolError { .. }
            | AgentEvent::ToolStream { .. }
            | AgentEvent::GuardTriggered { .. }
            | AgentEvent::SafetyNotice { .. }
            | AgentEvent::ParameterError { .. } => AgentPhase::Acting,
            AgentEvent::FinalAnswer(_) | AgentEvent::Cancelled | AgentEvent::Error { .. } =>
                AgentPhase::Terminal,
        }
    }

    /// The phase that the event belongs to.
    pub fn phase(&self) -> (r: AgentPhase)
        ensures
            r == self.phase_of(),
    {
        match self {
            AgentEvent::Token(_)
            | AgentEvent::ThinkStart
            | AgentEvent::ThinkEnd { .. }
            | AgentEvent::MemoryRecalled { .. }
            | AgentEvent::ContextCompressed { .. }
            | AgentEvent::Chart { .. } => AgentPhase::Thinking,
            AgentEvent::ToolCall { .. }
            | AgentEvent::ToolResult { .. }
            | AgentEvent::ToolError { .. }
            | AgentEvent::ToolStream { .. }
            | AgentEvent::GuardTriggered { .. }
            | AgentEvent::SafetyNotice { .. }
            | AgentEvent::ParameterError { .. } => AgentPhase::Acting,
            AgentEvent::FinalAnswer(_) | AgentEvent::Cancelled | AgentEvent::Error { .. } =>
                AgentPhase::Terminal,
        }
    }

    /// Whether the work can be saved at this event: nothing is under way.
    pub open spec fn settles(&self) -> bool {
        ||| self is ThinkEnd
        ||| self is ToolResult
        ||| self is ToolError
        ||| self is ParameterError
        ||| self is ContextCompressed
        ||| self is FinalAnswer
        ||| self is Cancelled
        ||| self is Error
    }

    /// Whether the work can be saved at this event.
    pub fn is_checkpoint(&self) -> (r: bool)
        ensures
            r == self.settles(),
    {
        match self {
            AgentEvent::ThinkEnd { .. }
            | AgentEvent::ToolResult { .. }
            | AgentEvent::ToolError { .. }
            | AgentEvent::ParameterError { .. }
            | AgentEvent::ContextCompressed { .. }
            | AgentEvent::FinalAnswer(_)
            | AgentEvent::Cancelled
            | AgentEvent::Error { .. } => true,
            _ => false,
        }
    }
}

/// A step in the answer of the model.
pub enum StepType {
    /// A thought.
    Thought(String),
    /// A call of a tool.
    Call { tool_call_id: String, function_name: String, arguments: Json },
}

// ── What a client sees ──────────────────────────────────────────────────────────────────────

/// What a client gets to see of an event.
#[allow(inconsistent_fields)]
pub enum StreamPayload {
    Token { delta: String },
    ThinkStart,
    ThinkEnd { prompt_tokens: usize, completion_tokens: usize },
    ToolCall { tool_call_id: String, name: String, args: Json },
    ToolResult { tool_call_id: String, name: String, output: String },
    ToolError { tool_call_id: String, name: String, error: String },
    ToolStream { tool_call_id: String, name: String, payload: Json },
    GuardTriggered { guard: String, blocked: bool },
    MemoryRecalled { count: usize },
    ContextCompressed {
        before_count: usize,
        after_count: usize,
        before_tokens: usize,
        after_tokens: usize,
    },
    Chart { spec: Json },
    Error { source: String, message: String },
    SafetyNotice { action: String, reason: String, risk: String, permission: String },
    ParameterError { tool: String, parameter: String, expected: String, got: String },
    FinalAnswer { text: String },
    Cancelled,
    /// The end of the stream, whatever came before.
    Done { elapsed_ms: u128, ok: bool, error: Option<String> },
}

/// Whether a payload shows an event.
pub open spec fn shows(p: StreamPayload, e: AgentEvent) -> bool {
    match e {
        AgentEvent::Token(s) => p == (StreamPayload::Token { delta: s }),
        AgentEvent::ThinkStart => p is ThinkStart,
        AgentEvent::ThinkEnd { prompt_tokens, completion_tokens } => p == (
        StreamPayload::ThinkEnd { prompt_tokens, completion_tokens }),
        AgentEvent::ToolCall { tool_call_id, name, args } => p == (StreamPayload::ToolCall {
            tool_call_id,
            name,
            args,
        }),
        AgentEvent::ToolResult { tool_call_id, name, output } => p == (StreamPayload::ToolResult {
            tool_call_id,
            name,
            output,
        }),
        AgentEvent::ToolError { tool_call_id, name, error } => p == (StreamPayload::ToolError {
            tool_call_id,
            name,
            error,
        }),
        AgentEvent::ToolStream { tool_call_id, name, event } => match p {
            StreamPayload::ToolStream { tool_call_id: i, name: n, payload } => i == tool_call_id
                && n == name && payload@ == JsonView::Object(
                map!["debug"@ => JsonView::Str(event@)],
            ),
            _ => false,
        },
        AgentEvent::GuardTriggered { guard, blocked } => p == (StreamPayload::GuardTriggered {
            guard,
            blocked,
        }),
        AgentEvent::MemoryRecalled { count } => p == (StreamPayload::MemoryRecalled { count }),
        AgentEvent::ContextCompressed {
            before_count,
            after_count,
            before_tokens,
            after_tokens,
        } => p == (StreamPayload::ContextCompressed {
            before_count,
            after_count,
            before_tokens,
            after_tokens,
        }),
        AgentEvent::Chart { spec } => p == (StreamPayload::Chart { spec }),
        AgentEvent::Error { source, message } => p == (StreamPayload::Error { source, message }),
        AgentEvent::SafetyNotice { action, reason, risk, permission } => p == (
        StreamPayload::SafetyNotice { action, reason, risk, permission }),
        AgentEvent::ParameterError { tool, parameter, expected, got } => p == (
        StreamPayload::ParameterError { tool, parameter, expected, got }),
        AgentEvent::FinalAnswer(text) => p == (StreamPayload::FinalAnswer { text }),
        AgentEvent::Cancelled => p is Cancelled,
    }
}

fn debug_object(text: String) -> (r: Json)
    ensures
        r@ == JsonView::Object(map!["debug"@ => JsonView::Str(text@)]),
{
    let mut fields: Vec<(String, Json)> = Vec::new();
    assert(fields_view(fields@) =~= Map::<Seq<char>, JsonView>::empty());
    set_field(&mut fields, "debug", Json::Str(text));
    assert(fields_view(fields@) =~= map!["debug"@ => JsonView::Str(text@)]);
    Json::Object(fields)
}

impl StreamPayload {
    /// What a client gets to see of an event; every event is shown.
    pub fn from_event(ev: AgentEvent) -> (r: Option<StreamPayload>)
        ensures
            r is Some,
            shows(r->0, ev),
    {
        let p = match ev {
            AgentEvent::Token(s) => StreamPayload::Token { delta: s },
            AgentEvent::ThinkStart => StreamPayload::ThinkStart,
            AgentEvent::ThinkEnd { prompt_tokens, completion_tokens } => StreamPayload::ThinkEnd {
                prompt_tokens,
                completion_tokens,
            },
            AgentEvent::ToolCall { tool_call_id, name, args } => StreamPayload::ToolCall {
                tool_call_id,
                name,
                args,
            },
            AgentEvent::ToolResult { tool_call_id, name, output } => StreamPayload::ToolResult {
                tool_call_id,
                name,
                output,
            },
            AgentEvent::ToolError { tool_call_id, name, error } => StreamPayload::ToolError {
                tool_call_id,
                name,
                error,
            },
            AgentEvent::ToolStream { tool_call_id, name, event } => StreamPayload::ToolStream {
                tool_call_id,
                name,
                payload: debug_object(event),
            },
            AgentEvent::GuardTriggered { guard, blocked } => StreamPayload::GuardTriggered {
                guard,
                blocked,
            },
            AgentEvent::MemoryRecalled { count } => StreamPayload::MemoryRecalled { count },
            AgentEvent::ContextCompressed {
                before_count,
                after_count,
                before_tokens,
                after_tokens,
            } => StreamPayload::ContextCompressed {
                before_count,
                after_count,
                before_tokens,
                after_tokens,
            },
            AgentEvent::Chart { spec } => StreamPayload::Chart { spec },
            AgentEvent::Error { source, message } => StreamPayload::Error { source, message },
            AgentEvent::SafetyNotice { action, reason, risk, permission } => {
                StreamPayload::SafetyNotice { action, reason, risk, permission }
            },
            AgentEvent::ParameterError { tool, parameter, expected, got } => {
                StreamPayload::ParameterError { tool, parameter, expected, got }
            },
            AgentEvent::FinalAnswer(text) => StreamPayload::FinalAnswer { text },
            AgentEvent::Cancelled => StreamPayload::Cancelled,
        };
        Some(p)
    }
}

/// The name of the channel on which the events of a session are sent.
pub fn channel_name(session_id: &str) -> (r: String)
    ensures
        r@ == "echo://agent/stream/"@ + session_id@,
{
    concat("echo://agent/stream/", session_id)
}

// ── The course of a chat ────────────────────────────────────────────────────────────────────

/// Whether a payload is an error from a source.
pub open spec fn is_error(p: StreamPayload, source: Seq<char>, message: Seq<char>) -> bool {
    p matches StreamPayload::Error { source: s, message: m } && s@ == source && m@ == message
}

fn error_payload(source: &str, message: &str) -> (r: StreamPayload)
    ensures
        is_error(r, source@, message@),
{
    StreamPayload::Error { source: source.to_owned(), message: message.to_owned() }
}

/// What to do with an item of the stream of an agent.
pub enum StreamStep {
    /// Send the payload; where that fails, stop reading without an error.
    Send(StreamPayload),
    /// Send the payload, then end with the error.
    Fail(StreamPayload, AppError),
}

/// Whether a step ends the chat with an error that the client is told of.
pub open spec fn fails_with(s: StreamStep, source: Seq<char>, message: Seq<char>) -> bool {
    match s {
        StreamStep::Fail(p, e) => is_error(p, source, message) && (e matches AppError::AgentExec(m)
            && m@ == message),
        StreamStep::Send(_) => false,
    }
}

fn failing(source: &str, message: &str) -> (r: StreamStep)
    ensures
        fails_with(r, source@, message@),
{
    StreamStep::Fail(
        error_payload(source, message),
        AppError::AgentExec(message.to_owned()),
    )
}

/// What to do with an item of the stream: an event is shown, an error ends the chat.
pub fn stream_item(item: Result<AgentEvent, String>) -> (r: StreamStep)
    ensures
        match item {
            Ok(e) => r matches StreamStep::Send(p) && shows(p, e),
            Err(m) => fails_with(r, "stream"@, m@),
        },
{
    match item {
        Ok(e) => match StreamPayload::from_event(e) {
            Some(p) => StreamStep::Send(p),
            None => failing("stream", ""),
        },
        Err(m) => failing("stream", m.as_str()),
    }
}

/// What to do where the agent does not start to answer.
pub fn stream_refused(command: &str, message: &str) -> (r: StreamStep)
    ensures
        fails_with(r, command@, message@),
{
    failing(command, message)
}

/// How a chat stands.
pub struct ChatRun {
    pub ok: bool,
    pub error: Option<String>,
}

impl ChatRun {
    /// A chat that has just begun.
    pub fn new() -> (r: ChatRun)
        ensures
            r.ok,
            r.error is None,
    {
        ChatRun { ok: true, error: None }
    }

    /// The chat after the stream has ended; where it failed, the client is told.
    pub fn stream_ended(&mut self, command: &str, result: Result<(), AppError>) -> (r: Option<
        StreamPayload,
    >)
        ensures
            match result {
                Ok(_) => r is None && *final(self) == *old(self),
                Err(e) => r is Some && is_error(r->0, command@, e.text()) && !final(self).ok
                    && opt_str(final(self).error) == Some(e.text()),
            },
    {
        match result {
            Ok(_) => None,
            Err(e) => {
                self.ok = false;
                let message = e.message();
                let p = error_payload(command, message.as_str());
                self.error = Some(message);
                Some(p)
            },
        }
    }

    /// Whether the session is stored: where nothing has failed.
    pub fn stores_session(&self) -> (r: bool)
        ensures
            r == self.ok,
    {
        self.ok
    }

    /// The last payload of the chat.
    pub fn done(&self, elapsed_ms: u128) -> (r: StreamPayload)
        ensures
            r == (StreamPayload::Done { elapsed_ms, ok: self.ok, error: self.error }),
    {
        StreamPayload::Done { elapsed_ms, ok: self.ok, error: copy_opt(&self.error) }
    }
}

/// The chat after the session was stored, or could not be: then the client is told.
pub fn persistence_error_payload(
    result: Result<(), AppError>,
    ok: &mut bool,
    final_err: &mut Option<String>,
) -> (r: Option<StreamPayload>)
    ensures
        match result {
            Ok(_) => r is None && *final(ok) == *old(ok) && *final(final_err) == *old(final_err),
            Err(e) => r is Some && is_error(r->0, "persistence"@, e.text()) && !*final(ok)
                && opt_str(*final(final_err)) == Some(e.text()),
        },
{
    match result {
        Ok(_) => None,
        Err(e) => {
            *ok = false;
            let message = e.message();
            let p = error_payload("persistence", message.as_str());
            *final_err = Some(message);
            Some(p)
        },
    }
}

// ── Laws ────────────────────────────────────────────────────────────────────────────────────

/// Every event that ends the work is one at which the work can be saved, and no event at which it
/// can be saved is a piece of an answer or the call of a tool.
pub proof fn law_terminal_events_settle(e: AgentEvent)
    ensures
        e.phase_of() == AgentPhase::Terminal ==> e.settles(),
        e is Token || e is ThinkStart || e is ToolCall || e is ToolStream ==> !e.settles(),
{
}

/// An event ends a run exactly where it is a final answer, a cancellation or an error. What tells of
/// tools, guards and their parameters belongs to acting, and the rest to thinking.
pub proof fn law_phases_of_events(e: AgentEvent)
    ensures
        e.phase_of() == AgentPhase::Terminal <==> e is FinalAnswer || e is Cancelled || e is Error,
        e is ToolCall || e is ToolResult || e is ToolError || e is ToolStream || e is ParameterError
            ==> e.phase_of() == AgentPhase::Acting,
        e is Token || e is ThinkStart || e is ThinkEnd || e is MemoryRecalled
            || e is ContextCompressed ==> e.phase_of() == AgentPhase::Thinking,
{
}

} // verus!
