//! Chat histories: how the messages of a conversation are shown as turns.

use vstd::prelude::*;
use crate::json::{json_document, lemma_list_view, list_view, parse, Json, JsonView};
use crate::lists::copy_opt;
use crate::text::{concat, decimal, number, opt_str, same, trim, trimmed};

verus! {

// ── Messages ────────────────────────────────────────────────────────────────────────────────

/// Who a message is from.
pub enum Role {
    System,
    User,
    Assistant,
    Tool,
    Custom(String),
}

/// A call of a tool by the model.
pub struct ToolCall {
    /// Identifier of the call.
    pub id: String,
    /// Kind of the call.
    pub call_type: String,
    /// Name of the tool.
    pub name: String,
    /// Arguments as JSON text.
    pub arguments: String,
}

/// A message of a conversation.
pub struct Message {
    pub role: Role,
    /// Text of the message.
    pub content: Option<String>,
    /// What the model thought.
    pub reasoning_content: Option<String>,
    /// The tools that the model called.
    pub tool_calls: Vec<ToolCall>,
    /// The call that the message answers.
    pub tool_call_id: Option<String>,
    /// The tool that the message is from.
    pub name: Option<String>,
}

/// A message as it is stored.
pub struct StoredMessage {
    pub id: Option<i64>,
    pub conversation_id: String,
    pub role: String,
    pub content: Option<String>,
    pub attachments_json: Option<String>,
    pub tool_calls_json: Option<String>,
    pub tool_result_json: Option<String>,
    pub reasoning_content: Option<String>,
    pub created_at: String,
}

/// Who a message is from.
pub enum RoleView {
    System,
    User,
    Assistant,
    Tool,
    Custom(Seq<char>),
}

/// A call of a tool by the model.
pub struct CallParts {
    pub id: Seq<char>,
    pub call_type: Seq<char>,
    pub name: Seq<char>,
    pub arguments: Seq<char>,
}

/// What a message holds.
pub struct MessageView {
    pub role: RoleView,
    pub content: Option<Seq<char>>,
    pub reasoning: Option<Seq<char>>,
    pub calls: Seq<CallParts>,
    pub call_id: Option<Seq<char>>,
    pub name: Option<Seq<char>>,
}

impl View for ToolCall {
    type V = CallParts;

    open spec fn view(&self) -> CallParts {
        CallParts {
            id: self.id@,
            call_type: self.call_type@,
            name: self.name@,
            arguments: self.arguments@,
        }
    }
}

/// What a list of calls holds.
pub open spec fn call_parts(v: Seq<ToolCall>) -> Seq<CallParts> {
    v.map_values(|c: ToolCall| c@)
}

impl View for Role {
    type V = RoleView;

    open spec fn view(&self) -> RoleView {
        match self {
            Role::System => RoleView::System,
            Role::User => RoleView::User,
            Role::Assistant => RoleView::Assistant,
            Role::Tool => RoleView::Tool,
            Role::Custom(name) => RoleView::Custom(name@),
        }
    }
}

impl View for Message {
    type V = MessageView;

    open spec fn view(&self) -> MessageView {
        MessageView {
            role: self.role@,
            content: opt_str(self.content),
            reasoning: opt_str(self.reasoning_content),
            calls: call_parts(self.tool_calls@),
            call_id: opt_str(self.tool_call_id),
            name: opt_str(self.name),
        }
    }
}

/// What each message holds.
pub open spec fn message_views(v: Seq<Message>) -> Seq<MessageView> {
    v.map_values(|m: Message| m@)
}

// ── Turns ───────────────────────────────────────────────────────────────────────────────────

/// Who a turn is from.
#[derive(Debug, Clone, Copy, PartialEq, Eq, Structural)]
pub enum ChatTurnRole {
    System,
    User,
    Assistant,
}

/// How far a turn is.
#[derive(Debug, Clone, Copy, PartialEq, Eq, Structural)]
pub enum ChatTurnStatus {
    Done,
    Streaming,
    Error,
}

/// A call of a tool as it is shown.
pub struct ToolCallView {
    pub id: String,
    pub name: String,
    pub args: Json,
    pub result: Option<String>,
    pub error: Option<String>,
}

/// A piece of a turn.
pub enum ChatSegment {
    Text { content: String },
    Thinking { content: String },
    ToolCall { call: ToolCallView },
}

/// A turn of a conversation.
pub struct ChatTurn {
    pub id: String,
    pub role: ChatTurnRole,
    pub segments: Vec<ChatSegment>,
    pub elapsed_ms: Option<u64>,
    pub status: ChatTurnStatus,
}

/// What a piece of a turn holds.
pub enum SegmentView {
    Text(Seq<char>),
    Thinking(Seq<char>),
    ToolCall {
        id: Seq<char>,
        name: Seq<char>,
        args: JsonView,
        result: Option<Seq<char>>,
        error: Option<Seq<char>>,
    },
}

/// What a turn holds.
#[verifier::ext_equal]
pub struct TurnView {
    pub id: Seq<char>,
    pub role: ChatTurnRole,
    pub segments: Seq<SegmentView>,
    pub elapsed_ms: Option<u64>,
    pub status: ChatTurnStatus,
}

impl View for ChatSegment {
    type V = SegmentView;

    open spec fn view(&self) -> SegmentView {
        match self {
            ChatSegment::Text { content } => SegmentView::Text(content@),
            ChatSegment::Thinking { content } => SegmentView::Thinking(content@),
            ChatSegment::ToolCall { call } => SegmentView::ToolCall {
                id: call.id@,
                name: call.name@,
                args: call.args@,
                result: opt_str(call.result),
                error: opt_str(call.error),
            },
        }
    }
}

impl ChatSegment {
    /// The name of the kind of the piece.
    pub fn kind(&self) -> (r: &'static str)
        ensures
            r@ == match self@ {
                SegmentView::Text(_) => "text"@,
                SegmentView::Thinking(_) => "thinking"@,
                SegmentView::ToolCall { .. } => "tool_call"@,
            },
    {
        match self {
            ChatSegment::Text { content } => "text",
            ChatSegment::Thinking { content } => "thinking",
            ChatSegment::ToolCall { call } => "tool_call",
        }
    }
}

/// What each piece holds.
pub open spec fn segment_views(v: Seq<ChatSegment>) -> Seq<SegmentView> {
    v.map_values(|s: ChatSegment| s@)
}

impl View for ChatTurn {
    type V = TurnView;

    open spec fn view(&self) -> TurnView {
        TurnView {
            id: self.id@,
            role: self.role,
            segments: segment_views(self.segments@),
            elapsed_ms: self.elapsed_ms,
            status: self.status,
        }
    }
}

/// What each turn holds.
pub open spec fn turn_views(v: Seq<ChatTurn>) -> Seq<TurnView> {
    v.map_values(|t: ChatTurn| t@)
}

/// The state of the assembly of turns.
#[verifier::ext_equal]
pub struct Assembly {
    /// The finished turns.
    pub turns: Seq<TurnView>,
    /// The turn of the assistant that is being assembled.
    pub pending: Option<TurnView>,
    /// Whether a turn of the system is among the finished ones.
    pub has_system: bool,
}

/// A finished turn with nothing but pieces.
pub open spec fn plain_turn(
    id: Seq<char>,
    role: ChatTurnRole,
    segments: Seq<SegmentView>,
) -> TurnView {
    TurnView { id, role, segments, elapsed_ms: None, status: ChatTurnStatus::Done }
}

/// Whether there is more than white space.
pub open spec fn has_text(o: Option<Seq<char>>) -> bool {
    o is Some && trim(o->0).len() > 0
}

/// The turns with one more, where it has text.
pub open spec fn with_text_turn(
    turns: Seq<TurnView>,
    id: Seq<char>,
    role: ChatTurnRole,
    content: Option<Seq<char>>,
) -> Seq<TurnView> {
    if has_text(content) {
        turns.push(plain_turn(id, role, seq![SegmentView::Text(content->0)]))
    } else {
        turns
    }
}

/// The turns with that of the assistant finished; one without pieces is dropped.
pub open spec fn flushed(turns: Seq<TurnView>, pending: Option<TurnView>) -> Seq<TurnView> {
    match pending {
        Some(t) => if t.segments.len() > 0 {
            turns.push(t)
        } else {
            turns
        },
        None => turns,
    }
}

/// The arguments of a call: what the text says as JSON, or the text itself.
pub open spec fn arguments_view(text: Seq<char>) -> JsonView {
    match json_document(text) {
        Some(v) => v,
        None => JsonView::Str(text),
    }
}

/// The piece for a call.
pub open spec fn call_segment(c: CallParts) -> SegmentView {
    SegmentView::ToolCall {
        id: c.id,
        name: c.name,
        args: arguments_view(c.arguments),
        result: None,
        error: None,
    }
}

/// The pieces for a message of the assistant: what it thought, its calls, and what it said.
pub open spec fn message_segments(m: MessageView) -> Seq<SegmentView> {
    let thought = if has_text(m.reasoning) {
        seq![SegmentView::Thinking(m.reasoning->0)]
    } else {
        Seq::empty()
    };
    let said = if has_text(m.content) {
        seq![SegmentView::Text(m.content->0)]
    } else {
        Seq::empty()
    };
    thought + m.calls.map_values(|c: CallParts| call_segment(c)) + said
}

/// Whether a piece is the call with an identifier, and by name, where one is given.
pub open spec fn is_call(s: SegmentView, id: Seq<char>, name: Option<Seq<char>>) -> bool {
    match s {
        SegmentView::ToolCall { id: i, name: n, .. } => i == id && (name is None || name->0 == n),
        _ => false,
    }
}

/// The pieces with the result put into the first call that it answers.
pub open spec fn with_result(
    s: Seq<SegmentView>,
    id: Seq<char>,
    name: Option<Seq<char>>,
    result: Seq<char>,
) -> Seq<SegmentView>
    decreases s.len(),
{
    if s.len() == 0 {
        s
    } else if is_call(s[0], id, name) {
        seq![answered(s[0], result)] + s.drop_first()
    } else {
        seq![s[0]] + with_result(s.drop_first(), id, name, result)
    }
}

/// A call with its result.
pub open spec fn answered(s: SegmentView, result: Seq<char>) -> SegmentView {
    match s {
        SegmentView::ToolCall { id, name, args, result: _, error } => SegmentView::ToolCall {
            id,
            name,
            args,
            result: Some(result),
            error,
        },
        other => other,
    }
}

/// The assembly after one more message.
pub open spec fn assembled_step(a: Assembly, i: int, m: MessageView) -> Assembly {
    match m.role {
        RoleView::System => {
            let turns = flushed(a.turns, a.pending);
            if a.has_system {
                Assembly { turns, pending: None, has_system: true }
            } else {
                Assembly {
                    turns: with_text_turn(
                        turns,
                        "system-"@ + decimal(i as nat),
                        ChatTurnRole::System,
                        m.content,
                    ),
                    pending: None,
                    has_system: has_text(m.content),
                }
            }
        },
        RoleView::User => Assembly {
            turns: with_text_turn(
                flushed(a.turns, a.pending),
                "user-"@ + decimal(i as nat),
                ChatTurnRole::User,
                m.content,
            ),
            pending: None,
            has_system: a.has_system,
        },
        RoleView::Assistant => {
            let t = match a.pending {
                Some(t) => t,
                None => plain_turn(
                    "assistant-"@ + decimal(i as nat),
                    ChatTurnRole::Assistant,
                    Seq::empty(),
                ),
            };
            Assembly {
                turns: a.turns,
                pending: Some(TurnView { segments: t.segments + message_segments(m), ..t }),
                has_system: a.has_system,
            }
        },
        RoleView::Tool => match (a.pending, m.call_id) {
            (Some(t), Some(id)) => Assembly {
                turns: a.turns,
                pending: Some(
                    TurnView {
                        segments: with_result(
                            t.segments,
                            id,
                            m.name,
                            match m.content {
                                Some(c) => c,
                                None => Seq::empty(),
                            },
                        ),
                        ..t
                    },
                ),
                has_system: a.has_system,
            },
            _ => a,
        },
        RoleView::Custom(_) => a,
    }
}

/// The assembly after messages.
pub open spec fn assembled(m: Seq<MessageView>) -> Assembly
    decreases m.len(),
{
    if m.len() == 0 {
        Assembly { turns: Seq::empty(), pending: None, has_system: false }
    } else {
        assembled_step(assembled(m.drop_last()), m.len() - 1, m.last())
    }
}

/// The turns of a conversation: the first message of the system that has text, the messages of the
/// user, and between them all that the assistant thought, called and said, in order.
pub open spec fn turns_of(m: Seq<MessageView>) -> Seq<TurnView> {
    flushed(assembled(m).turns, assembled(m).pending)
}

fn text_in(o: &Option<String>) -> (r: bool)
    ensures
        r == has_text(opt_str(*o)),
{
    match o {
        Some(s) => !trimmed(s.as_str()).as_str().is_empty(),
        None => false,
    }
}

fn push_text_turn(
    turns: &mut Vec<ChatTurn>,
    prefix: &str,
    idx: usize,
    role: ChatTurnRole,
    content: &Option<String>,
)
    ensures
        turn_views(final(turns)@) == with_text_turn(
            turn_views(old(turns)@),
            prefix@ + decimal(idx as nat),
            role,
            opt_str(*content),
        ),
{
    if !text_in(content) {
        return;
    }
    if let Some(c) = content {
        let ghost before = turns@;
        let id = concat(prefix, number(idx as u64).as_str());
        let mut segments: Vec<ChatSegment> = Vec::new();
        segments.push(ChatSegment::Text { content: c.clone() });
        assert(segment_views(segments@) =~= seq![SegmentView::Text(c@)]);
        let t = ChatTurn {
            id,
            role,
            segments,
            elapsed_ms: None,
            status: ChatTurnStatus::Done,
        };
        turns.push(t);
        assert(turn_views(turns@) =~= turn_views(before).push(t@));
    }
}

fn flush_assistant(turns: &mut Vec<ChatTurn>, pending: Option<ChatTurn>)
    ensures
        turn_views(final(turns)@) == flushed(
            turn_views(old(turns)@),
            match pending {
                Some(t) => Some(t@),
                None => None,
            },
        ),
{
    if let Some(t) = pending {
        if t.segments.len() > 0 {
            let ghost before = turns@;
            turns.push(t);
            assert(turn_views(turns@) =~= turn_views(before).push(t@));
        }
    }
}

fn tool_call_view(call: &ToolCall) -> (r: ToolCallView)
    ensures
        (ChatSegment::ToolCall { call: r })@ == call_segment(call@),
{
    let args = match parse(call.arguments.as_str()) {
        Some(j) => j,
        None => Json::Str(call.arguments.clone()),
    };
    ToolCallView {
        id: call.id.clone(),
        name: call.name.clone(),
        args,
        result: None,
        error: None,
    }
}

fn append_segments(segments: &mut Vec<ChatSegment>, m: &Message)
    ensures
        segment_views(final(segments)@) == segment_views(old(segments)@) + message_segments(m@),
{
    let ghost base = segment_views(segments@);
    let ghost calls = m@.calls.map_values(|c: CallParts| call_segment(c));
    let ghost thought = if has_text(m@.reasoning) {
        seq![SegmentView::Thinking(m@.reasoning->0)]
    } else {
        Seq::empty()
    };
    if text_in(&m.reasoning_content) {
        if let Some(t) = &m.reasoning_content {
            let ghost before = segments@;
            let s = ChatSegment::Thinking { content: t.clone() };
            let ghost v = s@;
            segments.push(s);
            assert(segment_views(segments@) =~= segment_views(before).push(v));
        }
    }
    assert(segment_views(segments@) =~= base + thought);
    let mut i: usize = 0;
    assert(base + thought + calls.take(0) =~= base + thought);
    while i < m.tool_calls.len()
        invariant
            calls == m@.calls.map_values(|c: CallParts| call_segment(c)),
            i <= m.tool_calls.len(),
            segment_views(segments@) == base + thought + calls.take(i as int),
        decreases m.tool_calls.len() - i,
    {
        let ghost before = segments@;
        let s = ChatSegment::ToolCall { call: tool_call_view(&m.tool_calls[i]) };
        let ghost v = s@;
        segments.push(s);
        assert(segment_views(segments@) =~= segment_views(before).push(v));
        assert(calls[i as int] == v);
        assert((base + thought + calls.take(i as int)).push(v) =~= base + thought + calls.take(
            i + 1,
        ));
        i = i + 1;
    }
    assert(calls.take(calls.len() as int) =~= calls);
    if text_in(&m.content) {
        if let Some(t) = &m.content {
            let ghost before = segments@;
            let s = ChatSegment::Text { content: t.clone() };
            let ghost v = s@;
            segments.push(s);
            assert(segment_views(segments@) =~= segment_views(before).push(v));
        }
    }
    assert(segment_views(segments@) =~= base + message_segments(m@));
}

/// Putting a result in is done at the first call that it answers.
proof fn lemma_with_result(
    s: Seq<SegmentView>,
    id: Seq<char>,
    name: Option<Seq<char>>,
    result: Seq<char>,
    i: int,
)
    requires
        0 <= i <= s.len(),
        forall|k: int| 0 <= k < i ==> !is_call(#[trigger] s[k], id, name),
        i < s.len() ==> is_call(s[i], id, name),
    ensures
        with_result(s, id, name, result) == if i < s.len() {
            s.update(i, answered(s[i], result))
        } else {
            s
        },
    decreases s.len(),
{
    if s.len() > 0 {
        if i == 0 {
            assert(seq![answered(s[0], result)] + s.drop_first() =~= s.update(
                0,
                answered(s[0], result),
            ));
        } else {
            let t = s.drop_first();
            assert forall|k: int| 0 <= k < i - 1 implies !is_call(#[trigger] t[k], id, name) by {
                assert(t[k] == s[k + 1]);
            }
            assert(!is_call(s[0], id, name));
            lemma_with_result(t, id, name, result, i - 1);
            if i < s.len() {
                assert(seq![s[0]] + t.update(i - 1, answered(s[i], result)) =~= s.update(
                    i,
                    answered(s[i], result),
                ));
            } else {
                assert(seq![s[0]] + t =~= s);
            }
        }
    }
}

fn answers(call: &ToolCallView, id: &str, name: &Option<String>) -> (r: bool)
    ensures
        r == is_call((ChatSegment::ToolCall { call: *call })@, id@, opt_str(*name)),
{
    same(call.id.as_str(), id) && match name {
        Some(n) => same(call.name.as_str(), n.as_str()),
        None => true,
    }
}

fn patch_tool_result(
    segments: &mut Vec<ChatSegment>,
    id: &str,
    name: &Option<String>,
    result: String,
)
    ensures
        segment_views(final(segments)@) == with_result(
            segment_views(old(segments)@),
            id@,
            opt_str(*name),
            result@,
        ),
{
    let ghost all = segment_views(segments@);
    let mut i: usize = 0;
    while i < segments.len()
        invariant
            all == segment_views(segments@),
            all == segment_views(old(segments)@),
            i <= segments.len(),
            forall|k: int| 0 <= k < i ==> !is_call(#[trigger] all[k], id@, opt_str(*name)),
        decreases segments.len() - i,
    {
        assert(all[i as int] == segments@[i as int]@);
        let hit = match &segments[i] {
            ChatSegment::ToolCall { call } => answers(call, id, name),
            _ => false,
        };
        if hit {
            let ghost list = segments@;
            let taken = segments.remove(i);
            if let ChatSegment::ToolCall { call } = taken {
                let mut c = call;
                c.result = Some(result);
                let s = ChatSegment::ToolCall { call: c };
                let ghost v = s@;
                segments.insert(i, s);
                proof {
                    lemma_with_result(all, id@, opt_str(*name), result@, i as int);
                    assert(v == answered(all[i as int], result@));
                    assert(segment_views(segments@) =~= all.update(i as int, v));
                }
            }
            return;
        }
        i = i + 1;
    }
    proof {
        lemma_with_result(all, id@, opt_str(*name), result@, all.len() as int);
    }
}

/// The turn of an optional one.
spec fn opt_turn(o: Option<ChatTurn>) -> Option<TurnView> {
    match o {
        Some(t) => Some(t@),
        None => None,
    }
}

/// The turns of a conversation.
pub fn messages_to_chat_turns(messages: &Vec<Message>) -> (r: Vec<ChatTurn>)
    ensures
        turn_views(r@) == turns_of(message_views(messages@)),
{
    let ghost all = message_views(messages@);
    let mut turns: Vec<ChatTurn> = Vec::new();
    let mut pending: Option<ChatTurn> = None;
    let mut has_system = false;
    let mut i: usize = 0;
    assert(all.take(0) =~= Seq::<MessageView>::empty());
    assert(turn_views(turns@) =~= Seq::<TurnView>::empty());
    while i < messages.len()
        invariant
            all == message_views(messages@),
            i <= messages.len(),
            assembled(all.take(i as int)) == (Assembly {
                turns: turn_views(turns@),
                pending: opt_turn(pending),
                has_system,
            }),
        decreases messages.len() - i,
    {
        let m = &messages[i];
        let ghost a = assembled(all.take(i as int));
        assert(all.take(i + 1).drop_last() =~= all.take(i as int));
        assert(all.take(i + 1).last() == m@);
        match &m.role {
            Role::System => {
                flush_assistant(&mut turns, pending);
                pending = None;
                if !has_system {
                    push_text_turn(&mut turns, "system-", i, ChatTurnRole::System, &m.content);
                    has_system = text_in(&m.content);
                }
            },
            Role::User => {
                flush_assistant(&mut turns, pending);
                pending = None;
                push_text_turn(&mut turns, "user-", i, ChatTurnRole::User, &m.content);
            },
            Role::Assistant => {
                let mut t = match pending {
                    Some(t) => t,
                    None => {
                        let fresh = ChatTurn {
                            id: concat("assistant-", number(i as u64).as_str()),
                            role: ChatTurnRole::Assistant,
                            segments: Vec::new(),
                            elapsed_ms: None,
                            status: ChatTurnStatus::Done,
                        };
                        assert(segment_views(fresh.segments@) =~= Seq::<SegmentView>::empty());
                        fresh
                    },
                };
                append_segments(&mut t.segments, m);
                pending = Some(t);
            },
            Role::Tool => {
                if let Some(t) = pending {
                    let mut t = t;
                    if let Some(id) = &m.tool_call_id {
                        let result = match &m.content {
                            Some(c) => c.clone(),
                            None => String::new(),
                        };
                        assert(result@ =~= match m@.content {
                            Some(c) => c,
                            None => Seq::empty(),
                        });
                        patch_tool_result(&mut t.segments, id.as_str(), &m.name, result);
                    }
                    pending = Some(t);
                }
            },
            Role::Custom(_) => {},
        }
        assert(assembled(all.take(i + 1)) == assembled_step(a, i as int, m@));
        i = i + 1;
    }
    assert(all.take(all.len() as int) =~= all);
    flush_assistant(&mut turns, pending);
    turns
}

// ── Stored messages ─────────────────────────────────────────────────────────────────────────

/// The call that a stored value stands for, where it has all the fields of one.
pub open spec fn stored_call(v: JsonView) -> Option<CallParts> {
    match (v.text_field("id"@), v.text_field("type"@), v.field("function"@)) {
        (Some(id), Some(call_type), Some(f)) => match (f.text_field("name"@), f.text_field("arguments"@)) {
            (Some(name), Some(arguments)) => Some(
                CallParts { id, call_type, name, arguments },
            ),
            _ => None,
        },
        _ => None,
    }
}

/// The calls that a list of stored values stands for; nothing where one of them is no call.
pub open spec fn stored_call_list(v: Seq<JsonView>) -> Option<Seq<CallParts>>
    decreases v.len(),
{
    if v.len() == 0 {
        Some(Seq::empty())
    } else {
        match (stored_call_list(v.drop_last()), stored_call(v.last())) {
            (Some(s), Some(c)) => Some(s.push(c)),
            _ => None,
        }
    }
}

/// The calls in a stored document; none where it is no list of calls.
pub open spec fn stored_calls(text: Option<Seq<char>>) -> Seq<CallParts> {
    match text {
        Some(t) => match json_document(t) {
            Some(v) => match v.elements() {
                Some(e) => match stored_call_list(e) {
                    Some(c) => c,
                    None => Seq::empty(),
                },
                None => Seq::empty(),
            },
            None => Seq::empty(),
        },
        None => Seq::empty(),
    }
}

/// A text field of a stored document.
pub open spec fn stored_field(text: Option<Seq<char>>, key: Seq<char>) -> Option<Seq<char>> {
    match text {
        Some(t) => match json_document(t) {
            Some(v) => v.text_field(key),
            None => None,
        },
        None => None,
    }
}

/// The role with a name.
pub open spec fn role_named(name: Seq<char>) -> RoleView {
    if name == "system"@ {
        RoleView::System
    } else if name == "user"@ {
        RoleView::User
    } else if name == "assistant"@ {
        RoleView::Assistant
    } else if name == "tool"@ {
        RoleView::Tool
    } else {
        RoleView::Custom(name)
    }
}

/// What a stored message stands for.
pub open spec fn stored_view(m: StoredMessage) -> MessageView {
    MessageView {
        role: role_named(m.role@),
        content: opt_str(m.content),
        reasoning: opt_str(m.reasoning_content),
        calls: stored_calls(opt_str(m.tool_calls_json)),
        call_id: stored_field(opt_str(m.tool_result_json), "tool_call_id"@),
        name: stored_field(opt_str(m.tool_result_json), "name"@),
    }
}

fn read_call(j: &Json) -> (r: Option<ToolCall>)
    ensures
        match r {
            Some(c) => stored_call(j@) == Some(c@),
            None => stored_call(j@) is None,
        },
{
    let id = match j.get_str("id") {
        Some(s) => s,
        None => {
            return None;
        },
    };
    let call_type = match j.get_str("type") {
        Some(s) => s,
        None => {
            return None;
        },
    };
    let f = match j.get("function") {
        Some(f) => f,
        None => {
            return None;
        },
    };
    let name = match f.get_str("name") {
        Some(s) => s,
        None => {
            return None;
        },
    };
    match f.get_str("arguments") {
        Some(arguments) => Some(ToolCall { id, call_type, name, arguments }),
        None => None,
    }
}

proof fn lemma_no_call_list(v: Seq<JsonView>, i: int)
    requires
        0 <= i < v.len(),
        stored_call(v[i]) is None,
    ensures
        stored_call_list(v) is None,
    decreases v.len(),
{
    if i < v.len() - 1 {
        lemma_no_call_list(v.drop_last(), i);
    }
}

fn parse_stored_tool_calls(json: &Option<String>) -> (r: Vec<ToolCall>)
    ensures
        call_parts(r@) == stored_calls(opt_str(*json)),
{
    let mut out: Vec<ToolCall> = Vec::new();
    assert(call_parts(out@) =~= Seq::<CallParts>::empty());
    let text = match json {
        Some(t) => t,
        None => {
            return out;
        },
    };
    let doc = match parse(text.as_str()) {
        Some(d) => d,
        None => {
            return out;
        },
    };
    let list = match &doc {
        Json::Array(v) => v,
        _ => {
            return out;
        },
    };
    let ghost all = list_view(list@);
    proof {
        lemma_list_view(list@);
        assert(doc@.elements() == Some(all));
    }
    let mut i: usize = 0;
    assert(all.take(0) =~= Seq::<JsonView>::empty());
    while i < list.len()
        invariant
            all == list_view(list@),
            all.len() == list@.len(),
            forall|k: int| 0 <= k < all.len() ==> #[trigger] all[k] == list@[k]@,
            opt_str(*json) is Some,
            json_document(opt_str(*json)->0) is Some,
            json_document(opt_str(*json)->0)->0.elements() == Some(all),
            i <= list.len(),
            stored_call_list(all.take(i as int)) == Some(call_parts(out@)),
        decreases list.len() - i,
    {
        assert(all[i as int] == list@[i as int]@);
        match read_call(&list[i]) {
            Some(c) => {
                let ghost before = out@;
                out.push(c);
                assert(call_parts(out@) =~= call_parts(before).push(c@));
                assert(all.take(i + 1).drop_last() =~= all.take(i as int));
            },
            None => {
                proof {
                    lemma_no_call_list(all, i as int);
                }
                let none: Vec<ToolCall> = Vec::new();
                assert(call_parts(none@) =~= Seq::<CallParts>::empty());
                return none;
            },
        }
        i = i + 1;
    }
    assert(all.take(all.len() as int) =~= all);
    out
}

fn text_of(doc: &Option<Json>, key: &str) -> (r: Option<String>)
    ensures
        opt_str(r) == match *doc {
            Some(d) => d@.text_field(key@),
            None => None,
        },
{
    match doc {
        Some(d) => d.get_str(key),
        None => None,
    }
}

fn parse_role(name: &str) -> (r: Role)
    ensures
        r@ == role_named(name@),
{
    if same(name, "system") {
        Role::System
    } else if same(name, "user") {
        Role::User
    } else if same(name, "assistant") {
        Role::Assistant
    } else if same(name, "tool") {
        Role::Tool
    } else {
        Role::Custom(name.to_owned())
    }
}

/// The message that a stored one stands for.
pub fn restore_message(m: &StoredMessage) -> (r: Message)
    ensures
        r@ == stored_view(*m),
{
    let meta: Option<Json> = match &m.tool_result_json {
        Some(t) => parse(t.as_str()),
        None => None,
    };
    Message {
        role: parse_role(m.role.as_str()),
        content: copy_opt(&m.content),
        reasoning_content: copy_opt(&m.reasoning_content),
        tool_calls: parse_stored_tool_calls(&m.tool_calls_json),
        tool_call_id: text_of(&meta, "tool_call_id"),
        name: text_of(&meta, "name"),
    }
}

/// What each stored message stands for.
pub open spec fn stored_views(v: Seq<StoredMessage>) -> Seq<MessageView> {
    v.map_values(|m: StoredMessage| stored_view(m))
}

/// The turns of a stored conversation.
pub fn stored_messages_to_chat_turns(messages: &Vec<StoredMessage>) -> (r: Vec<ChatTurn>)
    ensures
        turn_views(r@) == turns_of(stored_views(messages@)),
{
    let mut restored: Vec<Message> = Vec::new();
    let mut i: usize = 0;
    while i < messages.len()
        invariant
            i <= messages.len(),
            restored.len() == i,
            forall|k: int| 0 <= k < i ==> (#[trigger] restored@[k])@ == stored_view(messages@[k]),
        decreases messages.len() - i,
    {
        restored.push(restore_message(&messages[i]));
        i = i + 1;
    }
    assert(message_views(restored@) =~= stored_views(messages@));
    messages_to_chat_turns(&restored)
}

/// Whether a history is read from the store: where the agent itself remembers at most one message.
pub fn wants_stored(remembered: usize) -> (r: bool)
    ensures
        r == (remembered <= 1),
{
    remembered <= 1
}

/// The history of a conversation: what the agent remembers, or what is stored where the agent
/// remembers at most one message and more than one is stored.
pub fn history(remembered: &Vec<Message>, stored: &Vec<StoredMessage>) -> (r: Vec<ChatTurn>)
    ensures
        turn_views(r@) == if remembered@.len() <= 1 && stored@.len() > 1 {
            turns_of(stored_views(stored@))
        } else {
            turns_of(message_views(remembered@))
        },
{
    if wants_stored(remembered.len()) && stored.len() > 1 {
        stored_messages_to_chat_turns(stored)
    } else {
        messages_to_chat_turns(remembered)
    }
}

// ── Laws ────────────────────────────────────────────────────────────────────────────────────

/// The number of turns of the system.
pub open spec fn system_turns(t: Seq<TurnView>) -> nat
    decreases t.len(),
{
    if t.len() == 0 {
        0
    } else {
        system_turns(t.drop_last()) + if t.last().role == ChatTurnRole::System {
            1nat
        } else {
            0nat
        }
    }
}

/// What holds of every assembly: the pending turn is the assistant's, there is at most one turn of
/// the system, and no finished turn is without pieces.
pub open spec fn sound(a: Assembly) -> bool {
    &&& a.pending is Some ==> a.pending->0.role == ChatTurnRole::Assistant
    &&& system_turns(a.turns) == if a.has_system {
        1nat
    } else {
        0nat
    }
    &&& forall|i: int| 0 <= i < a.turns.len() ==> (#[trigger] a.turns[i]).segments.len() > 0
}

proof fn lemma_push_turn(turns: Seq<TurnView>, t: TurnView)
    ensures
        system_turns(turns.push(t)) == system_turns(turns) + if t.role == ChatTurnRole::System {
            1nat
        } else {
            0nat
        },
{
    assert(turns.push(t).drop_last() =~= turns);
}

proof fn lemma_sound_step(a: Assembly, i: int, m: MessageView)
    requires
        sound(a),
    ensures
        sound(assembled_step(a, i, m)),
{
    if a.pending is Some {
        lemma_push_turn(a.turns, a.pending->0);
    }
    let f = flushed(a.turns, a.pending);
    lemma_push_turn(
        f,
        plain_turn(
            "system-"@ + decimal(i as nat),
            ChatTurnRole::System,
            seq![SegmentView::Text(m.content->0)],
        ),
    );
    lemma_push_turn(
        f,
        plain_turn(
            "user-"@ + decimal(i as nat),
            ChatTurnRole::User,
            seq![SegmentView::Text(m.content->0)],
        ),
    );
}

proof fn lemma_sound(m: Seq<MessageView>)
    ensures
        sound(assembled(m)),
    decreases m.len(),
{
    if m.len() > 0 {
        lemma_sound(m.drop_last());
        lemma_sound_step(assembled(m.drop_last()), m.len() - 1, m.last());
    }
}

/// A history shows at most one message of the system, and no turn without pieces.
pub proof fn law_one_system_turn(m: Seq<MessageView>)
    ensures
        system_turns(turns_of(m)) <= 1,
        forall|i: int| 0 <= i < turns_of(m).len() ==> (#[trigger] turns_of(m)[i]).segments.len() > 0,
{
    lemma_sound(m);
    let a = assembled(m);
    if a.pending is Some {
        lemma_push_turn(a.turns, a.pending->0);
    }
}

/// Putting a result in changes nothing but the result of one call: as many pieces as before, and
/// each of them the same up to its result.
pub proof fn law_results_stay_with_their_calls(
    s: Seq<SegmentView>,
    id: Seq<char>,
    name: Option<Seq<char>>,
    result: Seq<char>,
)
    ensures
        with_result(s, id, name, result).len() == s.len(),
        forall|i: int|
            0 <= i < s.len() ==> (#[trigger] with_result(s, id, name, result)[i] == s[i] || (is_call(
                s[i],
                id,
                name,
            ) && with_result(s, id, name, result)[i] == answered(s[i], result))),
    decreases s.len(),
{
    if s.len() > 0 && !is_call(s[0], id, name) {
        let t = s.drop_first();
        law_results_stay_with_their_calls(t, id, name, result);
        let w = with_result(s, id, name, result);
        let u = with_result(t, id, name, result);
        assert forall|i: int| 0 <= i < s.len() implies (#[trigger] w[i] == s[i] || (is_call(
            s[i],
            id,
            name,
        ) && w[i] == answered(s[i], result))) by {
            if i > 0 {
                assert(w[i] == u[i - 1]);
                assert(s[i] == t[i - 1]);
            }
        }
    }
}

/// What a message of the assistant is shown as: first what it thought, where that is more than white
/// space; then its calls, each with its identifier, its name and its arguments, which are the JSON
/// that they are written in or, where they are not JSON, their text; and last what it said, where
/// that is more than white space.
pub proof fn law_message_is_shown_whole(m: MessageView, i: int)
    ensures
        ({
            let thought = m.reasoning is Some && trim(m.reasoning->0).len() > 0;
            let said = m.content is Some && trim(m.content->0).len() > 0;
            let first: int = if thought {
                1
            } else {
                0
            };
            let s = message_segments(m);
            &&& s.len() == first + m.calls.len() + if said {
                1int
            } else {
                0
            }
            &&& thought ==> s[0] == SegmentView::Thinking(m.reasoning->0)
            &&& said ==> s.last() == SegmentView::Text(m.content->0)
            &&& 0 <= i < m.calls.len() ==> s[first + i] == (SegmentView::ToolCall {
                id: m.calls[i].id,
                name: m.calls[i].name,
                args: match json_document(m.calls[i].arguments) {
                    Some(v) => v,
                    None => JsonView::Str(m.calls[i].arguments),
                },
                result: None,
                error: None,
            })
        }),
{
}

/// A result goes to the first call that has the identifier and, where a name is given, the name; it
/// becomes the result of that call, and nothing else changes. Where there is no such call, nothing
/// changes at all.
pub proof fn law_result_goes_to_the_first_call(
    s: Seq<SegmentView>,
    id: Seq<char>,
    name: Option<Seq<char>>,
    result: Seq<char>,
    i: int,
)
    ensures
        0 <= i < s.len() && s[i] is ToolCall && s[i]->id == id && (name is None || name->0
            == s[i]->name) && (forall|k: int|
            0 <= k < i && (#[trigger] s[k]) is ToolCall ==> s[k]->id != id || (name is Some
                && name->0 != s[k]->name)) ==> with_result(s, id, name, result) == s.update(
            i,
            SegmentView::ToolCall {
                id: s[i]->id,
                name: s[i]->name,
                args: s[i]->args,
                result: Some(result),
                error: s[i]->error,
            },
        ),
        (forall|k: int|
            0 <= k < s.len() && (#[trigger] s[k]) is ToolCall ==> s[k]->id != id || (name is Some
                && name->0 != s[k]->name)) ==> with_result(s, id, name, result) == s,
    decreases s.len(),
{
    if s.len() > 0 {
        let t = s.drop_first();
        let w = with_result(t, id, name, result);
        law_result_goes_to_the_first_call(t, id, name, result, i - 1);
        assert(seq![s[0]] + t =~= s);
        if is_call(s[0], id, name) {
            assert(s[0] is ToolCall);
            assert(seq![answered(s[0], result)] + t =~= s.update(0, answered(s[0], result)));
        } else {
            if forall|k: int|
                0 <= k < s.len() && (#[trigger] s[k]) is ToolCall ==> s[k]->id != id || (name is Some
                    && name->0 != s[k]->name) {
                assert forall|k: int| 0 <= k < t.len() && (#[trigger] t[k]) is ToolCall implies t[k]->id
                    != id || (name is Some && name->0 != t[k]->name) by {
                    assert(s[k + 1] == t[k]);
                }
                assert(w == t);
            }
            if 1 <= i < s.len() && s[i] is ToolCall && s[i]->id == id && (name is None || name->0
                == s[i]->name) && (forall|k: int|
                0 <= k < i && (#[trigger] s[k]) is ToolCall ==> s[k]->id != id || (name is Some
                    && name->0 != s[k]->name)) {
                assert(t[i - 1] == s[i]);
                assert forall|k: int| 0 <= k < i - 1 && (#[trigger] t[k]) is ToolCall implies t[k]->id
                    != id || (name is Some && name->0 != t[k]->name) by {
                    assert(s[k + 1] == t[k]);
                }
                assert(w == t.update(i - 1, answered(t[i - 1], result)));
                assert(seq![s[0]] + w =~= s.update(i, answered(s[i], result)));
            }
        }
    }
}

/// A piece without the result of a call.
pub open spec fn unanswered(s: SegmentView) -> SegmentView {
    match s {
        SegmentView::ToolCall { id, name, args, result: _, error } => SegmentView::ToolCall {
            id,
            name,
            args,
            result: None,
            error,
        },
        other => other,
    }
}

/// The pieces of all turns of a role, one after the other, without the results of calls.
pub open spec fn shown(t: Seq<TurnView>, role: ChatTurnRole) -> Seq<SegmentView>
    decreases t.len(),
{
    if t.len() == 0 {
        Seq::empty()
    } else {
        shown(t.drop_last(), role) + if t.last().role == role {
            t.last().segments.map_values(|s: SegmentView| unanswered(s))
        } else {
            Seq::empty()
        }
    }
}

/// The pieces of all messages of the assistant, one after the other.
pub open spec fn assistant_pieces(m: Seq<MessageView>) -> Seq<SegmentView>
    decreases m.len(),
{
    if m.len() == 0 {
        Seq::empty()
    } else {
        assistant_pieces(m.drop_last()) + if m.last().role is Assistant {
            message_segments(m.last())
        } else {
            Seq::empty()
        }
    }
}

/// The messages of the user that are more than white space, one after the other.
pub open spec fn user_pieces(m: Seq<MessageView>) -> Seq<SegmentView>
    decreases m.len(),
{
    if m.len() == 0 {
        Seq::empty()
    } else {
        user_pieces(m.drop_last()) + if m.last().role is User && m.last().content is Some && trim(
            m.last().content->0,
        ).len() > 0 {
            seq![SegmentView::Text(m.last().content->0)]
        } else {
            Seq::empty()
        }
    }
}

/// The number of turns of a role.
pub open spec fn turns_by(t: Seq<TurnView>, role: ChatTurnRole) -> nat
    decreases t.len(),
{
    if t.len() == 0 {
        0
    } else {
        turns_by(t.drop_last(), role) + if t.last().role == role {
            1nat
        } else {
            0nat
        }
    }
}

proof fn lemma_shown_push(t: Seq<TurnView>, x: TurnView, role: ChatTurnRole)
    ensures
        shown(t.push(x), role) == shown(t, role) + if x.role == role {
            x.segments.map_values(|s: SegmentView| unanswered(s))
        } else {
            Seq::empty()
        },
        turns_by(t.push(x), role) == turns_by(t, role) + if x.role == role {
            1nat
        } else {
            0nat
        },
{
    assert(t.push(x).drop_last() =~= t);
}

spec fn pending_pieces(p: Option<TurnView>) -> Seq<SegmentView> {
    match p {
        Some(t) => t.segments.map_values(|s: SegmentView| unanswered(s)),
        None => Seq::empty(),
    }
}

proof fn lemma_shown_flushed(t: Seq<TurnView>, p: Option<TurnView>)
    requires
        p is Some ==> p->0.role == ChatTurnRole::Assistant,
    ensures
        shown(flushed(t, p), ChatTurnRole::Assistant) == shown(t, ChatTurnRole::Assistant)
            + pending_pieces(p),
        shown(flushed(t, p), ChatTurnRole::User) == shown(t, ChatTurnRole::User),
        turns_by(flushed(t, p), ChatTurnRole::User) == turns_by(t, ChatTurnRole::User),
        shown(flushed(t, p), ChatTurnRole::System) == shown(t, ChatTurnRole::System),
{
    if let Some(x) = p {
        lemma_shown_push(t, x, ChatTurnRole::Assistant);
        lemma_shown_push(t, x, ChatTurnRole::User);
        lemma_shown_push(t, x, ChatTurnRole::System);
        if x.segments.len() == 0 {
            assert(pending_pieces(p) =~= Seq::<SegmentView>::empty());
        }
    }
    assert(shown(t, ChatTurnRole::Assistant) + Seq::<SegmentView>::empty() =~= shown(
        t,
        ChatTurnRole::Assistant,
    ));
    assert(shown(t, ChatTurnRole::User) + Seq::<SegmentView>::empty() =~= shown(
        t,
        ChatTurnRole::User,
    ));
    assert(shown(t, ChatTurnRole::System) + Seq::<SegmentView>::empty() =~= shown(
        t,
        ChatTurnRole::System,
    ));
}

proof fn lemma_nothing_lost(m: Seq<MessageView>)
    ensures
        assembled(m).pending is Some ==> assembled(m).pending->0.role == ChatTurnRole::Assistant,
        shown(assembled(m).turns, ChatTurnRole::Assistant) + pending_pieces(assembled(m).pending)
            == assistant_pieces(m),
        shown(assembled(m).turns, ChatTurnRole::User) == user_pieces(m),
        turns_by(assembled(m).turns, ChatTurnRole::User) == user_pieces(m).len(),
    decreases m.len(),
{
    if m.len() == 0 {
        assert(Seq::<SegmentView>::empty() + Seq::<SegmentView>::empty() =~= Seq::<
            SegmentView,
        >::empty());
    } else {
        let x = m.last();
        let a = assembled(m.drop_last());
        let i = m.len() - 1;
        let b = assembled(m);
        lemma_nothing_lost(m.drop_last());
        lemma_shown_flushed(a.turns, a.pending);
        let f = flushed(a.turns, a.pending);
        let before = assistant_pieces(m.drop_last());
        let user = user_pieces(m.drop_last());
        assert(before + Seq::<SegmentView>::empty() =~= before);
        assert(user + Seq::<SegmentView>::empty() =~= user);
        match x.role {
            RoleView::System => {
                let t = plain_turn(
                    "system-"@ + decimal(i as nat),
                    ChatTurnRole::System,
                    seq![SegmentView::Text(x.content->0)],
                );
                lemma_shown_push(f, t, ChatTurnRole::Assistant);
                lemma_shown_push(f, t, ChatTurnRole::User);
                assert(shown(f, ChatTurnRole::User) + Seq::<SegmentView>::empty() =~= user);
            },
            RoleView::User => {
                let t = plain_turn(
                    "user-"@ + decimal(i as nat),
                    ChatTurnRole::User,
                    seq![SegmentView::Text(x.content->0)],
                );
                lemma_shown_push(f, t, ChatTurnRole::Assistant);
                lemma_shown_push(f, t, ChatTurnRole::User);
                assert(t.segments.map_values(|s: SegmentView| unanswered(s)) =~= seq![
                    SegmentView::Text(x.content->0),
                ]);
            },
            RoleView::Assistant => {
                let more = message_segments(x);
                let clear = |s: SegmentView| unanswered(s);
                assert(more.map_values(clear) =~= more);
                let t = match a.pending {
                    Some(t) => t.segments,
                    None => Seq::empty(),
                };
                assert(t.map_values(clear) =~= pending_pieces(a.pending));
                assert((t + more).map_values(clear) =~= t.map_values(clear) + more);
                assert(shown(a.turns, ChatTurnRole::Assistant) + (t.map_values(clear) + more)
                    =~= shown(a.turns, ChatTurnRole::Assistant) + t.map_values(clear) + more);
            },
            RoleView::Tool => {
                if let (Some(t), Some(id)) = (a.pending, x.call_id) {
                    let result = match x.content {
                        Some(c) => c,
                        None => Seq::empty(),
                    };
                    law_results_stay_with_their_calls(t.segments, id, x.name, result);
                    let w = with_result(t.segments, id, x.name, result);
                    assert forall|k: int| 0 <= k < w.len() implies unanswered(#[trigger] w[k])
                        == unanswered(t.segments[k]) by {}
                    assert(pending_pieces(b.pending) =~= pending_pieces(a.pending));
                }
            },
            RoleView::Custom(_) => {},
        }
    }
}

/// Nothing that was said is lost, and nothing is made up: the turns of the assistant show, one after
/// the other, all that its messages hold, up to the results of calls; and the turns of the user are
/// its messages that are more than white space, one turn for each.
pub proof fn law_nothing_said_is_lost(m: Seq<MessageView>)
    ensures
        shown(turns_of(m), ChatTurnRole::Assistant) == assistant_pieces(m),
        shown(turns_of(m), ChatTurnRole::User) == user_pieces(m),
        turns_by(turns_of(m), ChatTurnRole::User) == user_pieces(m).len(),
{
    lemma_nothing_lost(m);
    lemma_shown_flushed(assembled(m).turns, assembled(m).pending);
}

/// Whether the assistant has the word: apart from results and messages of other roles, the last
/// message is the assistant's.
pub open spec fn assistant_speaks(m: Seq<MessageView>) -> bool
    decreases m.len(),
{
    if m.len() == 0 {
        false
    } else {
        match m.last().role {
            RoleView::Assistant => true,
            RoleView::Tool | RoleView::Custom(_) => assistant_speaks(m.drop_last()),
            _ => false,
        }
    }
}

/// Whether the assistant has the word and has said, called or thought something since it has.
pub open spec fn assistant_is_shown(m: Seq<MessageView>) -> bool
    decreases m.len(),
{
    if m.len() == 0 {
        false
    } else {
        match m.last().role {
            RoleView::Assistant => message_segments(m.last()).len() > 0 || assistant_is_shown(
                m.drop_last(),
            ),
            RoleView::Tool | RoleView::Custom(_) => assistant_is_shown(m.drop_last()),
            _ => false,
        }
    }
}

proof fn lemma_pending(m: Seq<MessageView>)
    ensures
        assembled(m).pending is Some == assistant_speaks(m),
        (assembled(m).pending is Some && assembled(m).pending->0.segments.len() > 0)
            == assistant_is_shown(m),
    decreases m.len(),
{
    if m.len() > 0 {
        lemma_pending(m.drop_last());
        let a = assembled(m.drop_last());
        let x = m.last();
        if let (Some(t), Some(id)) = (a.pending, x.call_id) {
            law_results_stay_with_their_calls(
                t.segments,
                id,
                x.name,
                match x.content {
                    Some(c) => c,
                    None => Seq::empty(),
                },
            );
        }
    }
}

/// What one more message does to the turns that are shown. None of them is lost. A message of the
/// user that is more than white space adds a turn; so does the first such message of the system; and
/// so does a message of the assistant, where it has not the word. Where it has, what it thought,
/// called and said comes at the end of its turn. A result is put into that turn. Nothing else changes
/// anything.
pub proof fn law_turns_grow_with_messages(m: Seq<MessageView>, x: MessageView)
    ensures
        ({
            let t = turns_of(m);
            let u = turns_of(m.push(x));
            let text = x.content is Some && trim(x.content->0).len() > 0;
            match x.role {
                RoleView::User => u == if text {
                    t.push(
                        TurnView {
                            id: "user-"@ + decimal(m.len()),
                            role: ChatTurnRole::User,
                            segments: seq![SegmentView::Text(x.content->0)],
                            elapsed_ms: None,
                            status: ChatTurnStatus::Done,
                        },
                    )
                } else {
                    t
                },
                RoleView::System => u == if text && forall|i: int|
                    0 <= i < t.len() ==> (#[trigger] t[i]).role != ChatTurnRole::System {
                    t.push(
                        TurnView {
                            id: "system-"@ + decimal(m.len()),
                            role: ChatTurnRole::System,
                            segments: seq![SegmentView::Text(x.content->0)],
                            elapsed_ms: None,
                            status: ChatTurnStatus::Done,
                        },
                    )
                } else {
                    t
                },
                RoleView::Assistant => {
                    &&& assistant_is_shown(m) ==> t.len() > 0 && t.last().role
                        == ChatTurnRole::Assistant && u == t.drop_last().push(
                        TurnView { segments: t.last().segments + message_segments(x), ..t.last() },
                    )
                    &&& !assistant_is_shown(m) && message_segments(x).len() == 0 ==> u == t
                    &&& !assistant_is_shown(m) && message_segments(x).len() > 0 ==> u.len()
                        == t.len() + 1 && u.drop_last() == t && u.last().role
                        == ChatTurnRole::Assistant && u.last().segments == message_segments(x)
                        && u.last().elapsed_ms is None && u.last().status == ChatTurnStatus::Done
                    &&& !assistant_speaks(m) && message_segments(x).len() > 0 ==> u.last().id
                        == "assistant-"@ + decimal(m.len())
                },
                RoleView::Tool => u == if assistant_is_shown(m) && x.call_id is Some {
                    t.drop_last().push(
                        TurnView {
                            segments: with_result(
                                t.last().segments,
                                x.call_id->0,
                                x.name,
                                if x.content is Some {
                                    x.content->0
                                } else {
                                    Seq::empty()
                                },
                            ),
                            ..t.last()
                        },
                    )
                } else {
                    t
                },
                RoleView::Custom(_) => u == t,
            }
        }),
{
    let all = m.push(x);
    assert(all.drop_last() =~= m);
    assert(all.last() == x);
    let a = assembled(m);
    let t = turns_of(m);
    lemma_pending(m);
    lemma_sound(m);
    if assistant_is_shown(m) {
        assert(t == a.turns.push(a.pending->0));
        assert(t.drop_last() =~= a.turns);
    }
    match x.role {
        RoleView::System => {
            lemma_system_turns(a.turns);
            lemma_system_turns(t);
            if a.pending is Some {
                lemma_push_turn(a.turns, a.pending->0);
            }
        },
        RoleView::Assistant => {
            let more = message_segments(x);
            if !assistant_is_shown(m) {
                assert(Seq::<SegmentView>::empty() + more =~= more);
                if a.pending is Some {
                    assert(a.pending->0.segments + more =~= more);
                    lemma_pending_plain(m);
                }
                if more.len() > 0 {
                    assert(turns_of(all).drop_last() =~= t);
                }
            }
        },
        RoleView::Tool => {
            if let (Some(p), Some(id)) = (a.pending, x.call_id) {
                law_results_stay_with_their_calls(
                    p.segments,
                    id,
                    x.name,
                    match x.content {
                        Some(c) => c,
                        None => Seq::empty(),
                    },
                );
            }
        },
        _ => {},
    }
}

proof fn lemma_pending_plain(m: Seq<MessageView>)
    ensures
        assembled(m).pending is Some ==> assembled(m).pending->0.elapsed_ms is None && assembled(
            m,
        ).pending->0.status == ChatTurnStatus::Done && assembled(m).pending->0.role
            == ChatTurnRole::Assistant,
    decreases m.len(),
{
    if m.len() > 0 {
        lemma_pending_plain(m.drop_last());
    }
}

proof fn lemma_system_turns(t: Seq<TurnView>)
    ensures
        system_turns(t) == 0 <==> forall|i: int|
            0 <= i < t.len() ==> (#[trigger] t[i]).role != ChatTurnRole::System,
    decreases t.len(),
{
    if t.len() > 0 {
        let init = t.drop_last();
        lemma_system_turns(init);
        assert(t[t.len() - 1] == t.last());
        if system_turns(t) == 0 {
            assert forall|i: int| 0 <= i < t.len() implies (#[trigger] t[i]).role
                != ChatTurnRole::System by {
                if i < init.len() {
                    assert(init[i] == t[i]);
                }
            }
        }
        if forall|i: int| 0 <= i < t.len() ==> (#[trigger] t[i]).role != ChatTurnRole::System {
            assert forall|i: int| 0 <= i < init.len() implies (#[trigger] init[i]).role
                != ChatTurnRole::System by {
                assert(init[i] == t[i]);
            }
        }
    }
}

/// The calls of a stored list are read one for one, in their order, each with its identifier, type,
/// name and arguments; a list with anything in it that is no call is not read at all.
pub proof fn law_stored_calls_are_read_one_for_one(v: Seq<JsonView>, i: int)
    ensures
        stored_call_list(v) is Some ==> stored_call_list(v)->0.len() == v.len(),
        stored_call_list(v) is Some && 0 <= i < v.len() ==> ({
            let c = stored_call_list(v)->0[i];
            &&& v[i].text_field("id"@) == Some(c.id)
            &&& v[i].text_field("type"@) == Some(c.call_type)
            &&& v[i].field("function"@) is Some
            &&& v[i].field("function"@)->0.text_field("name"@) == Some(c.name)
            &&& v[i].field("function"@)->0.text_field("arguments"@) == Some(c.arguments)
        }),
        (forall|k: int|
            0 <= k < v.len() ==> (#[trigger] v[k]).text_field("id"@) is Some && v[k].text_field(
                "type"@,
            ) is Some && v[k].field("function"@) is Some && v[k].field("function"@)->0.text_field(
                "name"@,
            ) is Some && v[k].field("function"@)->0.text_field("arguments"@) is Some)
            ==> stored_call_list(v) is Some,
    decreases v.len(),
{
    if v.len() > 0 {
        let front = v.drop_last();
        law_stored_calls_are_read_one_for_one(front, i);
        assert(v[v.len() - 1] == v.last());
        assert(forall|k: int| 0 <= k < front.len() ==> #[trigger] front[k] == v[k]);
    }
}

/// A stored message is restored as it was stored: its role by name, its text and its thought, and of its
/// result the call and the tool that it is from.
pub proof fn law_stored_messages_are_restored(m: StoredMessage)
    ensures
        m.role@ == "user"@ ==> stored_view(m).role is User,
        m.role@ == "assistant"@ ==> stored_view(m).role is Assistant,
        m.role@ == "system"@ ==> stored_view(m).role is System,
        m.role@ == "tool"@ ==> stored_view(m).role is Tool,
        m.role@ != "user"@ && m.role@ != "assistant"@ && m.role@ != "system"@ && m.role@ != "tool"@
            ==> stored_view(m).role == RoleView::Custom(m.role@),
        stored_view(m).content == opt_str(m.content),
        stored_view(m).reasoning == opt_str(m.reasoning_content),
        m.tool_result_json is Some && json_document(m.tool_result_json->0@) is Some
            ==> stored_view(m).call_id == json_document(m.tool_result_json->0@)->0.text_field(
            "tool_call_id"@,
        ) && stored_view(m).name == json_document(m.tool_result_json->0@)->0.text_field("name"@),
        m.tool_calls_json is None ==> stored_view(m).calls.len() == 0,
        m.tool_calls_json is Some && json_document(m.tool_calls_json->0@) is Some && json_document(
            m.tool_calls_json->0@,
        )->0 is Array && stored_call_list(
            json_document(m.tool_calls_json->0@)->0->Array_0,
        ) is Some ==> stored_view(m).calls == stored_call_list(
            json_document(m.tool_calls_json->0@)->0->Array_0,
        )->0,
{
    reveal_strlit("user");
    reveal_strlit("assistant");
    reveal_strlit("system");
    reveal_strlit("tool");
    assert("user"@.len() == 4 && "assistant"@.len() == 9 && "system"@.len() == 6 && "tool"@.len()
        == 4);
    assert("user"@[0] != "tool"@[0]);
}

} // verus!
