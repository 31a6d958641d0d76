//! Tools: their results, their parameters, and the manager that runs them.

use vstd::prelude::*;
use crate::error::ToolError;
use crate::json::{fields_view, json_text, number_text, print, set_field, Json, JsonView};
use crate::lists::reversed;
use crate::risk::{category_of, ToolRiskCategory, ToolRiskClassifier};
use crate::table::{in_order, sorted, Table};
use crate::text::{concat, opt_str, same, strs};

verus! {

// ── Results ─────────────────────────────────────────────────────────────────────────────────

/// What a tool gave.
pub enum ToolResultKind {
    /// Text.
    Text,
    /// Structured data.
    Json,
    /// An image.
    Image { mime_type: String },
    /// Rows under column headings.
    Table { columns: Vec<String>, rows: Vec<Vec<String>> },
    /// A unified diff.
    Diff { unified_diff: String },
    /// A file.
    FileReference { path: String },
    /// The output of a command.
    CommandOutput { exit_code: Option<i32> },
    /// An error with a code.
    StructuredError { error_code: String },
}

impl Default for ToolResultKind {
    fn default() -> (r: ToolResultKind)
        ensures
            r is Text,
    {
        ToolResultKind::Text
    }
}

/// The result of a tool.
pub struct ToolResult {
    /// What the tool gave.
    pub kind: ToolResultKind,
    /// Whether the tool succeeded.
    pub success: bool,
    /// Its output.
    pub output: String,
    /// Its error, where it failed.
    pub error: Option<String>,
    /// Its output as bytes.
    pub bytes: Option<Vec<u8>>,
    /// Its output as structured data.
    pub data: Option<Json>,
    /// Whether the output was cut.
    pub truncated: bool,
    /// The media type of the output.
    pub mime_type: Option<String>,
    /// Further data by name.
    pub metadata: Table<String>,
}

impl ToolResult {
    /// Whether nothing is set but the kind, the success, the output and the error.
    pub open spec fn is_plain(&self) -> bool {
        &&& self.bytes is None
        &&& self.data is None
        &&& !self.truncated
        &&& self.mime_type is None
        &&& self.metadata@ == Map::<Seq<char>, String>::empty()
    }

    /// A success with text.
    pub fn success(output: &str) -> (r: ToolResult)
        ensures
            r.success,
            r.kind is Text,
            r.output@ == output@,
            r.error is None,
            r.is_plain(),
    {
        ToolResult::success_with_kind(ToolResultKind::Text, output)
    }

    /// A success with structured data, which the output shows as JSON.
    pub fn success_json(data: Json) -> (r: ToolResult)
        ensures
            r.success,
            r.kind is Json,
            r.output@ == json_text(data@),
            r.error is None,
            r.bytes is None,
            r.data == Some(data),
            !r.truncated,
            r.mime_type is None,
            r.metadata@ == Map::<Seq<char>, String>::empty(),
    {
        let output = print(&data);
        ToolResult {
            kind: ToolResultKind::Json,
            success: true,
            output,
            error: None,
            bytes: None,
            data: Some(data),
            truncated: false,
            mime_type: None,
            metadata: Table::new(),
        }
    }

    /// A success of a kind.
    pub fn success_with_kind(kind: ToolResultKind, output: &str) -> (r: ToolResult)
        ensures
            r.success,
            r.kind == kind,
            r.output@ == output@,
            r.error is None,
            r.is_plain(),
    {
        ToolResult {
            kind,
            success: true,
            output: output.to_owned(),
            error: None,
            bytes: None,
            data: None,
            truncated: false,
            mime_type: None,
            metadata: Table::new(),
        }
    }

    /// A failure.
    pub fn error(error: &str) -> (r: ToolResult)
        ensures
            r.failed_with(error@),
            r.output@.len() == 0,
    {
        ToolResult {
            kind: ToolResultKind::StructuredError { error_code: "tool_error".to_owned() },
            success: false,
            output: String::new(),
            error: Some(error.to_owned()),
            bytes: None,
            data: None,
            truncated: false,
            mime_type: None,
            metadata: Table::new(),
        }
    }

    /// Whether this is a failure with a message, whatever its output.
    pub open spec fn failed_with(&self, message: Seq<char>) -> bool {
        &&& !self.success
        &&& self.kind matches ToolResultKind::StructuredError { error_code }
        &&& error_code@ == "tool_error"@
        &&& opt_str(self.error) == Some(message)
        &&& self.is_plain()
    }

    /// A success with bytes.
    pub fn binary(bytes: Vec<u8>) -> (r: ToolResult)
        ensures
            r.success,
            r.kind is Text,
            r.output@.len() == 0,
            r.error is None,
            r.bytes == Some(bytes),
            r.data is None,
            !r.truncated,
            r.mime_type is None,
            r.metadata@ == Map::<Seq<char>, String>::empty(),
    {
        ToolResult {
            kind: ToolResultKind::Text,
            success: true,
            output: String::new(),
            error: None,
            bytes: Some(bytes),
            data: None,
            truncated: false,
            mime_type: None,
            metadata: Table::new(),
        }
    }

    /// The result with bytes.
    pub fn with_bytes(self, bytes: Vec<u8>) -> (r: ToolResult)
        ensures
            r == (ToolResult { bytes: Some(bytes), ..self }),
    {
        let mut r = self;
        r.bytes = Some(bytes);
        r
    }

    /// The result with another output.
    pub fn with_output(self, output: &str) -> (r: ToolResult)
        ensures
            r.output@ == output@,
            r == (ToolResult { output: r.output, ..self }),
    {
        let mut r = self;
        r.output = output.to_owned();
        r
    }

    /// The result as a failure with a message.
    pub fn with_error(self, error: &str) -> (r: ToolResult)
        ensures
            opt_str(r.error) == Some(error@),
            r == (ToolResult { success: false, error: r.error, ..self }),
    {
        let mut r = self;
        r.success = false;
        r.error = Some(error.to_owned());
        r
    }

    /// The result with structured data.
    pub fn with_data(self, data: Json) -> (r: ToolResult)
        ensures
            r == (ToolResult { data: Some(data), ..self }),
    {
        let mut r = self;
        r.data = Some(data);
        r
    }

    /// The result, marked as cut or not.
    pub fn with_truncated(self, truncated: bool) -> (r: ToolResult)
        ensures
            r == (ToolResult { truncated, ..self }),
    {
        let mut r = self;
        r.truncated = truncated;
        r
    }

    /// The result with a media type.
    pub fn with_mime_type(self, mime_type: &str) -> (r: ToolResult)
        ensures
            opt_str(r.mime_type) == Some(mime_type@),
            r == (ToolResult { mime_type: r.mime_type, ..self }),
    {
        let mut r = self;
        r.mime_type = Some(mime_type.to_owned());
        r
    }

    /// The result with one more entry of further data.
    pub fn with_meta(self, key: &str, value: String) -> (r: ToolResult)
        ensures
            r.metadata@ == self.metadata@.insert(key@, value),
            r == (ToolResult { metadata: r.metadata, ..self }),
    {
        let mut r = self;
        let _ = r.metadata.insert(key.to_owned(), value);
        r
    }

    /// The result with other further data.
    pub fn with_metadata(self, meta: Table<String>) -> (r: ToolResult)
        ensures
            r == (ToolResult { metadata: meta, ..self }),
    {
        let mut r = self;
        r.metadata = meta;
        r
    }
}

/// What a running tool reports.
pub enum ToolStreamEvent {
    /// How far the tool is.
    Progress { message: String, percent: Option<u8> },
    /// A piece of output.
    PartialOutput { chunk: String },
    /// The result; nothing follows it.
    Complete(ToolResult),
}

// ── Settings ────────────────────────────────────────────────────────────────────────────────

/// How tools are run.
#[derive(Debug, Clone, Copy)]
pub struct ToolExecutionConfig {
    /// Time limit of one attempt in milliseconds; none where it is zero.
    pub timeout_ms: u64,
    /// Whether a failed tool is tried again.
    pub retry_on_fail: bool,
    /// How often at most.
    pub max_retries: u32,
    /// Delay before the first retry in milliseconds.
    pub retry_delay_ms: u64,
    /// How many tools that change anything may run at once.
    pub max_concurrency: Option<usize>,
    /// How many tools that only read may run at once.
    pub max_read_concurrency: Option<usize>,
}

impl Default for ToolExecutionConfig {
    fn default() -> (r: ToolExecutionConfig)
        ensures
            r == (ToolExecutionConfig {
                timeout_ms: 30_000,
                retry_on_fail: false,
                max_retries: 2,
                retry_delay_ms: 200,
                max_concurrency: None,
                max_read_concurrency: Some(32),
            }),
    {
        ToolExecutionConfig {
            timeout_ms: 30_000,
            retry_on_fail: false,
            max_retries: 2,
            retry_delay_ms: 200,
            max_concurrency: None,
            max_read_concurrency: Some(32),
        }
    }
}

/// How much harm a tool can do.
#[derive(Debug, Clone, Copy, PartialEq, Eq, Structural, PartialOrd, Ord)]
pub enum ToolRiskLevel {
    /// It only reads.
    ReadOnly,
    /// Its effects are limited.
    Standard,
    /// Its effects cannot be undone.
    Dangerous,
}

impl Default for ToolRiskLevel {
    fn default() -> (r: ToolRiskLevel)
        ensures
            r == ToolRiskLevel::Standard,
    {
        ToolRiskLevel::Standard
    }
}

impl ToolRiskLevel {
    /// What a tool of this level may do, in words.
    pub fn capability_description(&self) -> (r: &'static str)
        ensures
            r@ == match self {
                ToolRiskLevel::ReadOnly => "Read-only: no side effects"@,
                ToolRiskLevel::Standard => "Standard: limited side effects"@,
                ToolRiskLevel::Dangerous => "Dangerous: irreversible side effects"@,
            },
    {
        match self {
            ToolRiskLevel::ReadOnly => "Read-only: no side effects",
            ToolRiskLevel::Standard => "Standard: limited side effects",
            ToolRiskLevel::Dangerous => "Dangerous: irreversible side effects",
        }
    }
}

// ── Parameters ──────────────────────────────────────────────────────────────────────────────

/// The value of a parameter.
pub struct ParamValue {
    value: Json,
}

impl View for ParamValue {
    type V = JsonView;

    closed spec fn view(&self) -> JsonView {
        self.value@
    }
}

/// The name of the type of a value.
pub open spec fn type_of(v: JsonView) -> Seq<char> {
    match v {
        JsonView::Str(_) => "string"@,
        JsonView::Number(_) => "number"@,
        JsonView::Bool(_) => "bool"@,
        JsonView::Array(_) => "array"@,
        JsonView::Object(_) => "object"@,
        JsonView::Null => "null"@,
    }
}

impl ParamValue {
    /// The value as a parameter.
    pub fn from_json(v: &Json) -> (r: ParamValue)
        ensures
            r@ == v@,
    {
        ParamValue { value: v.copy() }
    }

    /// The text, where this is one.
    pub fn as_str(&self) -> (r: Option<&str>)
        ensures
            match r {
                Some(s) => self@.text() == Some(s@),
                None => self@.text() is None,
            },
    {
        self.value.as_str()
    }

    /// The number, where this is one.
    pub fn as_number(&self) -> (r: Option<&serde_json::Number>)
        ensures
            match r {
                Some(n) => self@ == JsonView::Number(number_text(*n)),
                None => !(self@ is Number),
            },
    {
        match &self.value {
            Json::Number(n) => Some(n),
            _ => None,
        }
    }

    /// The boolean, where this is one.
    pub fn as_bool(&self) -> (r: Option<bool>)
        ensures
            r == match self@ {
                JsonView::Bool(b) => Some(b),
                _ => None,
            },
    {
        match &self.value {
            Json::Bool(b) => Some(*b),
            _ => None,
        }
    }

    /// The name of the type.
    pub fn kind_name(&self) -> (r: &'static str)
        ensures
            r@ == type_of(self@),
    {
        match &self.value {
            Json::Str(_) => "string",
            Json::Number(_) => "number",
            Json::Bool(_) => "bool",
            Json::Array(_) => "array",
            Json::Object(_) => "object",
            Json::Null => "null",
        }
    }
}

/// The parameters of a tool call.
pub struct ToolCallParams {
    /// As they were given.
    raw: Json,
    parsed: Table<ParamValue>,
}

/// The parameters that a value holds by name: the fields of an object.
pub open spec fn params_of(v: JsonView) -> Map<Seq<char>, JsonView> {
    match v {
        JsonView::Object(m) => m,
        _ => Map::empty(),
    }
}

/// What the values of a table hold.
pub open spec fn held(m: Map<Seq<char>, ParamValue>) -> Map<Seq<char>, JsonView> {
    m.map_values(|v: ParamValue| v@)
}

/// What the values of a table of JSON hold.
pub open spec fn json_held(m: Map<Seq<char>, Json>) -> Map<Seq<char>, JsonView> {
    m.map_values(|v: Json| v@)
}

impl ToolCallParams {
    #[verifier::type_invariant]
    spec fn parsed_from_raw(&self) -> bool {
        held(self.parsed@) == params_of(self.raw@)
    }

    /// The parameters as they were given.
    pub closed spec fn given(&self) -> JsonView {
        self.raw@
    }

    /// The parameters by name.
    pub open spec fn params(&self) -> Map<Seq<char>, JsonView> {
        params_of(self.given())
    }

    /// The parameters as they were given.
    pub fn raw(&self) -> (r: &Json)
        ensures
            r@ == self.given(),
    {
        &self.raw
    }

    /// The parameters that a value holds.
    pub fn from_value(value: &Json) -> (r: ToolCallParams)
        ensures
            r.given() == value@,
    {
        let mut parsed: Table<ParamValue> = Table::new();
        if let Json::Object(v) = value {
            let mut i: usize = 0;
            assert(v@.take(0) =~= Seq::empty());
            assert(held(parsed@) =~= fields_view(v@.take(0)));
            while i < v.len()
                invariant
                    i <= v.len(),
                    held(parsed@) == fields_view(v@.take(i as int)),
                decreases v.len() - i,
            {
                let ghost before = parsed@;
                assert(v@.take(i + 1).drop_last() =~= v@.take(i as int));
                assert(held(before).dom() =~= before.dom());
                if !parsed.contains_key(v[i].0.as_str()) {
                    let p = ParamValue::from_json(&v[i].1);
                    let _ = parsed.insert(v[i].0.clone(), p);
                    assert(held(parsed@) =~= held(before).insert(v@[i as int].0@, p@));
                }
                i = i + 1;
            }
            assert(v@.take(v@.len() as int) =~= v@);
        } else {
            assert(held(parsed@) =~= Map::<Seq<char>, JsonView>::empty());
        }
        ToolCallParams { raw: value.copy(), parsed }
    }

    /// The parameters that a table holds.
    pub fn from_params(params: &Table<Json>) -> (r: ToolCallParams)
        ensures
            r.given() == JsonView::Object(json_held(params@)),
    {
        let names = params.keys();
        let ghost all = strs(names@);
        let mut fields: Vec<(String, Json)> = Vec::new();
        let mut i: usize = 0;
        assert(fields_view(fields@) =~= Map::<Seq<char>, JsonView>::empty());
        while i < names.len()
            invariant
                all == strs(names@),
                all.no_duplicates(),
                all.to_set() == params@.dom(),
                i <= names.len(),
                fields_view(fields@).dom() == all.take(i as int).to_set(),
                forall|k: Seq<char>| #[trigger]
                    fields_view(fields@).contains_key(k) ==> fields_view(fields@)[k] == params@[k]@,
            decreases names.len() - i,
        {
            assert(all[i as int] == names@[i as int]@);
            assert(all.to_set().contains(all[i as int]));
            let ghost before = fields_view(fields@);
            if let Some(v) = params.get(names[i].as_str()) {
                set_field(&mut fields, names[i].as_str(), v.copy());
            }
            proof {
                let now = all.take(i + 1);
                assert(now =~= all.take(i as int).push(all[i as int]));
                assert forall|k: Seq<char>| now.to_set().contains(k) == #[trigger] fields_view(
                    fields@,
                ).dom().contains(k) by {
                    if all.take(i as int).contains(k) {
                        let j = choose|j: int| 0 <= j < i && all.take(i as int)[j] == k;
                        assert(now[j] == k);
                    }
                    if k == all[i as int] {
                        assert(now[i as int] == k);
                    }
                    if now.contains(k) && k != all[i as int] {
                        let j = choose|j: int| 0 <= j < now.len() && now[j] == k;
                        assert(all.take(i as int)[j] == k);
                    }
                    assert(before.contains_key(k) == all.take(i as int).to_set().contains(k));
                }
                assert(fields_view(fields@).dom() =~= now.to_set());
            }
            i = i + 1;
        }
        proof {
            assert(all.take(all.len() as int) =~= all);
            assert(fields_view(fields@) =~= json_held(params@));
        }
        let object = Json::Object(fields);
        ToolCallParams::from_value(&object)
    }

    /// A parameter.
    pub fn get(&self, key: &str) -> (r: Option<&ParamValue>)
        ensures
            match r {
                Some(v) => self.params().contains_key(key@) && v@ == self.params()[key@],
                None => !self.params().contains_key(key@),
            },
    {
        proof {
            use_type_invariant(self);
            assert(held(self.parsed@).dom() =~= self.parsed@.dom());
        }
        self.parsed.get(key)
    }

    /// A parameter that is text.
    pub fn get_str(&self, key: &str) -> (r: Option<&str>)
        ensures
            match r {
                Some(s) => JsonView::Object(self.params()).text_field(key@) == Some(s@),
                None => JsonView::Object(self.params()).text_field(key@) is None,
            },
    {
        match self.get(key) {
            Some(v) => v.as_str(),
            None => None,
        }
    }

    /// A parameter that is a number.
    pub fn get_number(&self, key: &str) -> (r: Option<&serde_json::Number>)
        ensures
            match r {
                Some(n) => self.params().contains_key(key@) && self.params()[key@]
                    == JsonView::Number(number_text(*n)),
                None => !(self.params().contains_key(key@) && self.params()[key@] is Number),
            },
    {
        match self.get(key) {
            Some(v) => v.as_number(),
            None => None,
        }
    }

    /// A parameter that is a boolean.
    pub fn get_bool(&self, key: &str) -> (r: Option<bool>)
        ensures
            r == if self.params().contains_key(key@) {
                match self.params()[key@] {
                    JsonView::Bool(b) => Some(b),
                    _ => None,
                }
            } else {
                None
            },
    {
        match self.get(key) {
            Some(v) => v.as_bool(),
            None => None,
        }
    }

    /// Checks that a parameter is there and has a type.
    pub fn validate_required(&self, key: &str, expected_type: &str) -> (r: Result<(), String>)
        ensures
            match r {
                Ok(_) => self.params().contains_key(key@) && type_of(self.params()[key@])
                    == expected_type@,
                Err(m) => if !self.params().contains_key(key@) {
                    m@ == "Missing required parameter: "@ + key@
                } else {
                    type_of(self.params()[key@]) != expected_type@ && m@ == "Parameter '"@ + key@
                        + "': expected "@ + expected_type@ + ", got "@ + type_of(
                        self.params()[key@],
                    )
                },
            },
    {
        match self.get(key) {
            Some(v) => {
                if same(v.kind_name(), expected_type) {
                    Ok(())
                } else {
                    let mut m = concat("Parameter '", key);
                    m.push_str("': expected ");
                    m.push_str(expected_type);
                    m.push_str(", got ");
                    m.push_str(v.kind_name());
                    Err(m)
                }
            },
            None => Err(concat("Missing required parameter: ", key)),
        }
    }

    /// Whether a parameter is there.
    pub fn has(&self, key: &str) -> (r: bool)
        ensures
            r == self.params().contains_key(key@),
    {
        self.get(key).is_some()
    }

    /// The number of parameters.
    pub fn len(&self) -> (r: usize)
        ensures
            r == self.params().dom().len(),
    {
        proof {
            use_type_invariant(self);
            assert(held(self.parsed@).dom() =~= self.parsed@.dom());
        }
        self.parsed.len()
    }

    /// Whether there are no parameters.
    pub fn is_empty(&self) -> (r: bool)
        ensures
            r == (self.params().dom().len() == 0),
    {
        self.len() == 0
    }
}

// ── Manager ─────────────────────────────────────────────────────────────────────────────────

/// What the model is told of a tool.
pub struct ToolDefinition {
    /// Name of the tool.
    pub name: String,
    /// What the tool does.
    pub description: String,
    /// JSON Schema of its parameters.
    pub parameters: Json,
}

/// What a definition holds.
pub struct DefinitionView {
    pub name: Seq<char>,
    pub description: Seq<char>,
    pub parameters: JsonView,
}

impl View for ToolDefinition {
    type V = DefinitionView;

    open spec fn view(&self) -> DefinitionView {
        DefinitionView {
            name: self.name@,
            description: self.description@,
            parameters: self.parameters@,
        }
    }
}

impl ToolDefinition {
    /// A definition that holds the same.
    pub fn copy(&self) -> (r: ToolDefinition)
        ensures
            r@ == self@,
    {
        ToolDefinition {
            name: self.name.clone(),
            description: self.description.clone(),
            parameters: self.parameters.copy(),
        }
    }
}

/// What each definition holds.
pub open spec fn definition_views(v: Seq<ToolDefinition>) -> Seq<DefinitionView> {
    v.map_values(|d: ToolDefinition| d@)
}

/// The concurrent map of `dashmap`.
#[verifier::external_type_specification]
#[verifier::external_body]
#[verifier::reject_recursive_types(K)]
#[verifier::reject_recursive_types(V)]
#[verifier::reject_recursive_types(S)]
pub struct ExDashMap<K, V, S>(dashmap::DashMap<K, V, S>);

/// The numbers that a concurrent map holds by name.
pub uninterp spec fn map_holds(m: dashmap::DashMap<String, u64>) -> Map<Seq<char>, u64>;

/// `dashmap::DashMap::new`: the map is empty.
#[verifier::external_body]
fn new_map() -> (r: dashmap::DashMap<String, u64>)
    ensures
        map_holds(r).dom() == Set::<Seq<char>>::empty(),
{
    dashmap::DashMap::new()
}

/// `dashmap::DashMap::insert`: the name stands for the number, whatever it stood for before.
#[verifier::external_body]
fn map_insert(m: &mut dashmap::DashMap<String, u64>, key: String, value: u64)
    ensures
        map_holds(*final(m)) == map_holds(*old(m)).insert(key@, value),
{
    m.insert(key, value);
}

/// `dashmap::DashMap::remove`: the name stands for nothing any more; the number that it stood for
/// is handed out.
#[verifier::external_body]
fn map_remove(m: &mut dashmap::DashMap<String, u64>, key: &str) -> (r: Option<u64>)
    ensures
        map_holds(*final(m)) == map_holds(*old(m)).remove(key@),
        r == if map_holds(*old(m)).contains_key(key@) {
            Some(map_holds(*old(m))[key@])
        } else {
            None
        },
{
    m.remove(key).map(|e| e.1)
}

/// `dashmap::DashMap::get`: the number that the name stands for.
#[verifier::external_body]
fn map_get(m: &dashmap::DashMap<String, u64>, key: &str) -> (r: Option<u64>)
    ensures
        r == if map_holds(*m).contains_key(key@) {
            Some(map_holds(*m)[key@])
        } else {
            None
        },
{
    m.get(key).map(|e| *e.value())
}

/// `dashmap::DashMap::iter`, by the names: each name once, in an order that is left open.
#[verifier::external_body]
fn map_names(m: &dashmap::DashMap<String, u64>) -> (r: Vec<String>)
    ensures
        strs(r@).no_duplicates(),
        strs(r@).to_set() == map_holds(*m).dom(),
{
    m.iter().map(|e| e.key().clone()).collect()
}

/// What the manager knows of a tool.
pub struct ToolInfo {
    /// What the model is told of the tool.
    pub definition: ToolDefinition,
    /// Whether the tool reports while it runs.
    pub supports_streaming: bool,
}

/// A result that is kept for a while.
pub struct CachedResult {
    /// The result.
    pub result: ToolResult,
    /// When it was kept, in milliseconds.
    pub stored_ms: u64,
}

/// How long a result is kept, in milliseconds.
pub const CACHE_LIFETIME_MS: u64 = 60_000;

/// The tools by name. Each tool has a number, by which whoever runs the tools finds it.
///
/// The results of tools that only read are kept for a minute, until a tool that may change
/// something runs.
pub struct ToolManager {
    tools: dashmap::DashMap<String, u64>,
    infos: Vec<ToolInfo>,
    config: ToolExecutionConfig,
    limit: Option<usize>,
    read_limit: Option<usize>,
    version: u64,
    cached_names: Option<(u64, Vec<String>)>,
    results: Table<Table<CachedResult>>,
}

/// Whether a tool only reads.
pub open spec fn reads_only(tool: Seq<char>) -> bool {
    category_of(tool) == ToolRiskCategory::ReadOnly
}

/// The number of tools that may run at once, where it is limited: at least one.
pub open spec fn at_least_one(n: Option<usize>) -> Option<usize> {
    match n {
        Some(k) => Some(
            if k < 1 {
                1
            } else {
                k
            },
        ),
        None => None,
    }
}

fn limit_of(n: Option<usize>) -> (r: Option<usize>)
    ensures
        r == at_least_one(n),
{
    match n {
        Some(k) => Some(
            if k < 1 {
                1
            } else {
                k
            },
        ),
        None => None,
    }
}

/// What to do after an attempt to run a tool.
#[derive(Debug, Clone, Copy, PartialEq, Eq, Structural)]
pub enum AttemptStep {
    /// Hand out what the attempt gave.
    Finish,
    /// Wait so many milliseconds and make the attempt with this number.
    Retry { attempt: u32, delay_ms: u64 },
}

/// Two to the power of `n`, for small `n`.
pub open spec fn power_of_two(n: nat) -> nat
    decreases n,
{
    if n == 0 {
        1
    } else {
        2 * power_of_two((n - 1) as nat)
    }
}

/// The delay before retry `attempt`: it doubles from one retry to the next, five times at most.
pub open spec fn delay_before(base_ms: u64, attempt: u32) -> nat
    recommends
        attempt > 0,
{
    base_ms as nat * power_of_two(
        if attempt - 1 < 5 {
            (attempt - 1) as nat
        } else {
            5
        },
    )
}

impl ToolManager {
    #[verifier::type_invariant]
    spec fn consistent(&self) -> bool {
        &&& forall|n: Seq<char>| #[trigger]
            map_holds(self.tools).contains_key(n) ==> map_holds(self.tools)[n] < self.infos@.len()
                && self.infos@[map_holds(self.tools)[n] as int].definition.name@ == n
        &&& self.cached_names matches Some(c) ==> c.0 <= self.version && (c.0 == self.version
            ==> strs(c.1@) == in_order(map_holds(self.tools).dom()) && strs(c.1@).to_set()
            == map_holds(self.tools).dom())
    }

    /// The number of each tool.
    pub closed spec fn handles(&self) -> Map<Seq<char>, u64> {
        map_holds(self.tools)
    }

    /// What is known of the tool with a number.
    pub closed spec fn infos(&self) -> Seq<ToolInfo> {
        self.infos@
    }

    /// How tools are run.
    pub closed spec fn settings(&self) -> ToolExecutionConfig {
        self.config
    }

    /// How many tools that change anything may run at once.
    pub closed spec fn write_limit(&self) -> Option<usize> {
        self.limit
    }

    /// How many tools that only read may run at once.
    pub closed spec fn reading_limit(&self) -> Option<usize> {
        self.read_limit
    }

    /// The result that is kept for a call.
    pub closed spec fn kept(&self, tool: Seq<char>, params: Seq<char>) -> Option<CachedResult> {
        if self.results@.contains_key(tool) && self.results@[tool]@.contains_key(params) {
            Some(self.results@[tool]@[params])
        } else {
            None
        }
    }

    /// The definition of a tool.
    pub open spec fn definition_of(&self, name: Seq<char>) -> DefinitionView {
        self.infos()[self.handles()[name] as int].definition@
    }

    /// Whether the settings and limits are as in `other`.
    pub open spec fn same_limits(&self, other: ToolManager) -> bool {
        &&& self.settings() == other.settings()
        &&& self.write_limit() == other.write_limit()
        &&& self.reading_limit() == other.reading_limit()
    }

    /// Whether everything but the tools is as in `other`.
    pub open spec fn same_rules(&self, other: ToolManager) -> bool {
        &&& self.same_limits(other)
        &&& forall|t: Seq<char>, p: Seq<char>| #[trigger] self.kept(t, p) == other.kept(t, p)
    }

    /// A manager without tools and limits.
    pub fn new() -> (r: ToolManager)
        ensures
            r.handles() == Map::<Seq<char>, u64>::empty(),
            r.infos() == Seq::<ToolInfo>::empty(),
            r.write_limit() is None,
            r.reading_limit() is None,
            r.settings() == (ToolExecutionConfig {
                timeout_ms: 30_000,
                retry_on_fail: false,
                max_retries: 2,
                retry_delay_ms: 200,
                max_concurrency: None,
                max_read_concurrency: Some(32),
            }),
            forall|t: Seq<char>, p: Seq<char>| #[trigger] r.kept(t, p) is None,
    {
        let tools = new_map();
        assert(map_holds(tools) =~= Map::<Seq<char>, u64>::empty());
        ToolManager {
            tools,
            infos: Vec::new(),
            config: ToolExecutionConfig::default(),
            limit: None,
            read_limit: None,
            version: 0,
            cached_names: None,
            results: Table::new(),
        }
    }

    /// A manager without tools that runs them as `config` says.
    pub fn new_with_config(config: ToolExecutionConfig) -> (r: ToolManager)
        ensures
            r.handles() == Map::<Seq<char>, u64>::empty(),
            r.infos() == Seq::<ToolInfo>::empty(),
            r.settings() == config,
            r.write_limit() == at_least_one(config.max_concurrency),
            r.reading_limit() == at_least_one(config.max_read_concurrency),
            forall|t: Seq<char>, p: Seq<char>| #[trigger] r.kept(t, p) is None,
    {
        let tools = new_map();
        assert(map_holds(tools) =~= Map::<Seq<char>, u64>::empty());
        ToolManager {
            tools,
            infos: Vec::new(),
            config,
            limit: limit_of(config.max_concurrency),
            read_limit: limit_of(config.max_read_concurrency),
            version: 0,
            cached_names: None,
            results: Table::new(),
        }
    }

    /// How many tools that change anything may run at once, as it was set.
    pub fn max_concurrency(&self) -> (r: Option<usize>)
        ensures
            r == self.settings().max_concurrency,
    {
        self.config.max_concurrency
    }

    /// How tools are run.
    pub fn config(&self) -> (r: ToolExecutionConfig)
        ensures
            r == self.settings(),
    {
        self.config
    }

    /// Registers a tool, in place of one with the same name, whose results are forgotten; its number
    /// is handed out.
    pub fn register(&mut self, info: ToolInfo) -> (handle: u64)
        ensures
            handle == old(self).infos().len(),
            final(self).infos() == old(self).infos().push(info),
            final(self).handles() == old(self).handles().insert(info.definition.name@, handle),
            forall|t: Seq<char>, p: Seq<char>| #[trigger]
                final(self).kept(t, p) == if t == info.definition.name@ {
                    None
                } else {
                    old(self).kept(t, p)
                },
            final(self).same_limits(*old(self)),
    {
        let mut whole = ToolManager::new();
        core::mem::swap(self, &mut whole);
        proof {
            use_type_invariant(&whole);
        }
        let mut tools = whole.tools;
        let mut infos = whole.infos;
        let handle: u64 = infos.len() as u64;
        map_insert(&mut tools, info.definition.name.clone(), handle);
        let mut results = whole.results;
        let _ = results.remove(info.definition.name.as_str());
        infos.push(info);
        let (version, cached_names) = next_version(whole.version, whole.cached_names);
        *self = ToolManager {
            tools,
            infos,
            config: whole.config,
            limit: whole.limit,
            read_limit: whole.read_limit,
            version,
            cached_names,
            results,
        };
        handle
    }

    /// The numbers of the tools after a list of tools is registered one after the other.
    pub open spec fn registered(
        handles: Map<Seq<char>, u64>,
        first: nat,
        infos: Seq<ToolInfo>,
    ) -> Map<Seq<char>, u64>
        decreases infos.len(),
    {
        if infos.len() == 0 {
            handles
        } else {
            ToolManager::registered(handles, first, infos.drop_last()).insert(
                infos.last().definition.name@,
                (first + infos.len() - 1) as u64,
            )
        }
    }

    /// Whether one of the tools has a name.
    pub open spec fn any_named(infos: Seq<ToolInfo>, name: Seq<char>) -> bool {
        exists|i: int| 0 <= i < infos.len() && (#[trigger] infos[i]).definition.name@ == name
    }

    /// Registers tools one after the other; the results kept under their names are forgotten.
    pub fn register_tools(&mut self, infos: Vec<ToolInfo>)
        ensures
            final(self).infos() == old(self).infos() + infos@,
            final(self).handles() == ToolManager::registered(
                old(self).handles(),
                old(self).infos().len(),
                infos@,
            ),
            forall|t: Seq<char>, p: Seq<char>| #[trigger]
                final(self).kept(t, p) == if ToolManager::any_named(infos@, t) {
                    None
                } else {
                    old(self).kept(t, p)
                },
            final(self).same_limits(*old(self)),
    {
        let ghost all = infos@;
        let mut later = reversed(infos);
        assert(later@.reverse() =~= all);
        assert(all.take(0) =~= Seq::<ToolInfo>::empty());
        assert(self.infos() + all.take(0) =~= self.infos());
        let ghost n = later@.len();
        while later.len() > 0
            invariant
                n == all.len(),
                later@.len() <= n,
                later@.reverse() == all.subrange(n - later@.len(), n as int),
                self.infos() == old(self).infos() + all.take(n - later@.len()),
                self.handles() == ToolManager::registered(
                    old(self).handles(),
                    old(self).infos().len(),
                    all.take(n - later@.len()),
                ),
                forall|t: Seq<char>, p: Seq<char>| #[trigger]
                    self.kept(t, p) == if ToolManager::any_named(all.take(n - later@.len()), t) {
                        None
                    } else {
                        old(self).kept(t, p)
                    },
                self.same_limits(*old(self)),
            decreases later.len(),
        {
            let ghost l = later@;
            let ghost done = n - l.len();
            if let Some(t) = later.pop() {
                proof {
                    assert(l.reverse()[0] == t);
                    assert(all.subrange(done, n as int)[0] == all[done]);
                    assert(later@ == l.drop_last());
                    assert forall|k: int| 0 <= k < later@.len() implies #[trigger] later@.reverse()[k]
                        == all.subrange(done + 1, n as int)[k] by {
                        assert(l.reverse()[k + 1] == all.subrange(done, n as int)[k + 1]);
                    }
                    assert(later@.reverse() =~= all.subrange(done + 1, n as int));
                    assert(all.take(done + 1).drop_last() =~= all.take(done));
                    assert(all.take(done + 1) =~= all.take(done).push(t));
                    assert forall|x: Seq<char>| #[trigger]
                        ToolManager::any_named(all.take(done + 1), x) == (x == t.definition.name@
                        || ToolManager::any_named(all.take(done), x)) by {
                        let more = all.take(done + 1);
                        assert(more[done] == t);
                        if ToolManager::any_named(all.take(done), x) {
                            let k = choose|k: int|
                                0 <= k < done && (#[trigger] all.take(done)[k]).definition.name@
                                    == x;
                            assert(more[k].definition.name@ == x);
                        }
                        if ToolManager::any_named(more, x) {
                            let k = choose|k: int|
                                0 <= k < more.len() && (#[trigger] more[k]).definition.name@ == x;
                            if k < done {
                                assert(all.take(done)[k].definition.name@ == x);
                            }
                        }
                    }
                }
                let h: u64 = self.register(t);
                assert(self.infos() =~= old(self).infos() + all.take(done + 1));
            }
        }
        assert(all.take(n as int) =~= all);
    }

    /// Removes a tool; its number is handed out.
    pub fn unregister(&mut self, tool_name: &str) -> (r: Option<u64>)
        ensures
            r == if old(self).handles().contains_key(tool_name@) {
                Some(old(self).handles()[tool_name@])
            } else {
                None
            },
            final(self).handles() == old(self).handles().remove(tool_name@),
            final(self).infos() == old(self).infos(),
            final(self).same_rules(*old(self)),
    {
        if map_get(&self.tools, tool_name).is_none() {
            assert(self.handles().remove(tool_name@) =~= self.handles());
            return None;
        }
        let mut whole = ToolManager::new();
        core::mem::swap(self, &mut whole);
        proof {
            use_type_invariant(&whole);
        }
        let mut tools = whole.tools;
        let r = map_remove(&mut tools, tool_name);
        let (version, cached_names) = next_version(whole.version, whole.cached_names);
        *self = ToolManager {
            tools,
            infos: whole.infos,
            config: whole.config,
            limit: whole.limit,
            read_limit: whole.read_limit,
            version,
            cached_names,
            results: whole.results,
        };
        r
    }

    /// The names of the tools, in no particular order.
    pub fn list_tools(&self) -> (r: Vec<String>)
        ensures
            strs(r@).no_duplicates(),
            strs(r@).to_set() == self.handles().dom(),
    {
        map_names(&self.tools)
    }

    /// The number of a tool.
    pub fn get_tool(&self, tool_name: &str) -> (r: Option<u64>)
        ensures
            match r {
                Some(h) => self.handles().contains_key(tool_name@) && h
                    == self.handles()[tool_name@] && h < self.infos().len(),
                None => !self.handles().contains_key(tool_name@),
            },
    {
        proof {
            use_type_invariant(self);
        }
        map_get(&self.tools, tool_name)
    }

    /// What is known of a tool.
    pub fn info(&self, tool_name: &str) -> (r: Option<&ToolInfo>)
        ensures
            match r {
                Some(i) => self.handles().contains_key(tool_name@) && *i
                    == self.infos()[self.handles()[tool_name@] as int],
                None => !self.handles().contains_key(tool_name@),
            },
    {
        match self.get_tool(tool_name) {
            Some(h) => {
                let n: usize = self.infos.len();
                assert(h < n);
                Some(&self.infos[h as usize])
            },
            None => None,
        }
    }

    fn definitions_named(&self, names: &Vec<String>) -> (r: Vec<ToolDefinition>)
        requires
            strs(names@).to_set() == self.handles().dom(),
        ensures
            definition_views(r@) == strs(names@).map_values(
                |n: Seq<char>| self.definition_of(n),
            ),
    {
        let ghost all = strs(names@);
        let mut out: Vec<ToolDefinition> = Vec::new();
        let mut i: usize = 0;
        while i < names.len()
            invariant
                all == strs(names@),
                all.to_set() == self.handles().dom(),
                i <= names.len(),
                out.len() == i,
                forall|k: int| 0 <= k < i ==> (#[trigger] out@[k])@ == self.definition_of(all[k]),
            decreases names.len() - i,
        {
            assert(all[i as int] == names@[i as int]@);
            assert(all.to_set().contains(all[i as int]));
            if let Some(info) = self.info(names[i].as_str()) {
                out.push(info.definition.copy());
            }
            i = i + 1;
        }
        assert(definition_views(out@) =~= all.map_values(|n: Seq<char>| self.definition_of(n)));
        out
    }

    /// The definitions of the tools, in no particular order.
    pub fn get_tool_definitions(&self) -> (r: Vec<ToolDefinition>)
        ensures
            exists|names: Seq<Seq<char>>|
                #![trigger names.no_duplicates()]
                names.no_duplicates() && names.to_set() == self.handles().dom()
                    && definition_views(r@) == names.map_values(
                    |n: Seq<char>| self.definition_of(n),
                ),
    {
        let names = map_names(&self.tools);
        let r = self.definitions_named(&names);
        assert(strs(names@).no_duplicates());
        r
    }

    /// The definitions of the tools by name. The order is kept until a tool comes or goes.
    pub fn get_openai_tools(&mut self) -> (r: Vec<ToolDefinition>)
        ensures
            definition_views(r@) == in_order(old(self).handles().dom()).map_values(
                |n: Seq<char>| old(self).definition_of(n),
            ),
            final(self).handles() == old(self).handles(),
            final(self).infos() == old(self).infos(),
            final(self).same_rules(*old(self)),
    {
        proof {
            use_type_invariant(&*self);
        }
        if let Some(c) = &self.cached_names {
            if c.0 == self.version {
                return self.definitions_named(&c.1);
            }
        }
        let found = map_names(&self.tools);
        let names = sorted(&found);
        proof {
            crate::table::lemma_in_order(strs(names@));
        }
        let r = self.definitions_named(&names);
        self.cached_names = Some((self.version, names));
        r
    }

    /// Whether a tool reports while it runs; `false` for one that is not known.
    pub fn supports_streaming(&self, tool_name: &str) -> (r: bool)
        ensures
            r == (self.handles().contains_key(tool_name@)
                && self.infos()[self.handles()[tool_name@] as int].supports_streaming),
    {
        match self.info(tool_name) {
            Some(i) => i.supports_streaming,
            None => false,
        }
    }

    // ── Running ─────────────────────────────────────────────────────────────────────────────

    /// The number of the tool that is to run.
    pub fn tool_to_run(&self, tool_name: &str) -> (r: Result<u64, ToolError>)
        ensures
            match r {
                Ok(h) => self.handles().contains_key(tool_name@) && h
                    == self.handles()[tool_name@],
                Err(e) => !self.handles().contains_key(tool_name@) && (e matches ToolError::NotFound(
                    n,
                ) && n@ == tool_name@),
            },
    {
        match self.get_tool(tool_name) {
            Some(h) => Ok(h),
            None => Err(ToolError::NotFound(tool_name.to_owned())),
        }
    }

    /// How many tools like this one may run at once.
    pub fn limit_for(&self, tool_name: &str) -> (r: Option<usize>)
        ensures
            r == if reads_only(tool_name@) {
                self.reading_limit()
            } else {
                self.write_limit()
            },
    {
        match ToolRiskClassifier::classify(tool_name) {
            ToolRiskCategory::ReadOnly => self.read_limit,
            _ => self.limit,
        }
    }

    /// How many tools may run at once: those that change anything, and those that only read.
    pub fn limits(&self) -> (r: (Option<usize>, Option<usize>))
        ensures
            r == (self.write_limit(), self.reading_limit()),
    {
        (self.limit, self.read_limit)
    }

    /// Whether a kept result may still be used.
    pub open spec fn fresh(c: CachedResult, now_ms: u64) -> bool {
        now_ms < c.stored_ms + CACHE_LIFETIME_MS
    }

    /// The result that is kept for a call, where the tool only reads and the result is not too old.
    pub fn cached_result(&self, tool_name: &str, params: &str, now_ms: u64) -> (r: Option<
        &ToolResult,
    >)
        ensures
            match r {
                Some(t) => reads_only(tool_name@) && self.kept(tool_name@, params@) is Some
                    && ToolManager::fresh(self.kept(tool_name@, params@)->0, now_ms) && *t
                    == self.kept(tool_name@, params@)->0.result,
                None => !(reads_only(tool_name@) && self.kept(tool_name@, params@) is Some
                    && ToolManager::fresh(self.kept(tool_name@, params@)->0, now_ms)),
            },
    {
        match ToolRiskClassifier::classify(tool_name) {
            ToolRiskCategory::ReadOnly => {},
            _ => {
                return None;
            },
        }
        match self.results.get(tool_name) {
            Some(t) => match t.get(params) {
                Some(c) => {
                    if now_ms < c.stored_ms || now_ms - c.stored_ms < CACHE_LIFETIME_MS {
                        Some(&c.result)
                    } else {
                        None
                    }
                },
                None => None,
            },
            None => None,
        }
    }

    /// Forgets all kept results where the tool that is about to run may change something.
    pub fn begin_run(&mut self, tool_name: &str)
        ensures
            forall|t: Seq<char>, p: Seq<char>| #[trigger]
                final(self).kept(t, p) == if reads_only(tool_name@) {
                    old(self).kept(t, p)
                } else {
                    None
                },
            final(self).handles() == old(self).handles(),
            final(self).infos() == old(self).infos(),
            final(self).settings() == old(self).settings(),
            final(self).write_limit() == old(self).write_limit(),
            final(self).reading_limit() == old(self).reading_limit(),
    {
        proof {
            use_type_invariant(&*self);
        }
        match ToolRiskClassifier::classify(tool_name) {
            ToolRiskCategory::ReadOnly => {},
            _ => {
                self.results = Table::new();
            },
        }
    }

    /// Keeps the result of a call of a tool that only reads.
    pub fn keep_result(
        &mut self,
        tool_name: &str,
        params: &str,
        result: ToolResult,
        now_ms: u64,
    )
        ensures
            forall|t: Seq<char>, p: Seq<char>| #[trigger]
                final(self).kept(t, p) == if reads_only(tool_name@) && t == tool_name@ && p
                    == params@ {
                    Some(CachedResult { result, stored_ms: now_ms })
                } else {
                    old(self).kept(t, p)
                },
            final(self).handles() == old(self).handles(),
            final(self).infos() == old(self).infos(),
            final(self).settings() == old(self).settings(),
            final(self).write_limit() == old(self).write_limit(),
            final(self).reading_limit() == old(self).reading_limit(),
    {
        proof {
            use_type_invariant(&*self);
        }
        match ToolRiskClassifier::classify(tool_name) {
            ToolRiskCategory::ReadOnly => {
                let mut results: Table<Table<CachedResult>> = Table::new();
                core::mem::swap(&mut self.results, &mut results);
                let mut of_tool = match results.remove(tool_name) {
                    Some(t) => t,
                    None => Table::new(),
                };
                let _ = of_tool.insert(
                    params.to_owned(),
                    CachedResult { result, stored_ms: now_ms },
                );
                let _ = results.insert(tool_name.to_owned(), of_tool);
                self.results = results;
            },
            _ => {},
        }
    }

    /// How often a failed tool is tried again.
    pub open spec fn retries(&self) -> u32 {
        if self.settings().retry_on_fail {
            self.settings().max_retries
        } else {
            0
        }
    }

    /// What to do after attempt `attempt`, counted from zero: a success is handed out, and so is
    /// the failure of the last attempt.
    pub fn after_attempt(&self, attempt: u32, succeeded: bool) -> (r: AttemptStep)
        requires
            !succeeded && attempt < self.retries() ==> delay_before(
                self.settings().retry_delay_ms,
                (attempt + 1) as u32,
            ) <= u64::MAX,
        ensures
            r == if !succeeded && attempt < self.retries() {
                AttemptStep::Retry {
                    attempt: (attempt + 1) as u32,
                    delay_ms: delay_before(
                        self.settings().retry_delay_ms,
                        (attempt + 1) as u32,
                    ) as u64,
                }
            } else {
                AttemptStep::Finish
            },
    {
        let max: u32 = if self.config.retry_on_fail {
            self.config.max_retries
        } else {
            0
        };
        if succeeded || attempt >= max {
            return AttemptStep::Finish;
        }
        let factor: u64 = if attempt == 0 {
            1
        } else if attempt == 1 {
            2
        } else if attempt == 2 {
            4
        } else if attempt == 3 {
            8
        } else if attempt == 4 {
            16
        } else {
            32
        };
        proof {
            reveal_with_fuel(power_of_two, 6);
        }
        AttemptStep::Retry { attempt: attempt + 1, delay_ms: self.config.retry_delay_ms * factor }
    }
}

/// The next version of the list of tools; a list that was kept for a later one is forgotten.
fn next_version(version: u64, cached: Option<(u64, Vec<String>)>) -> (r: (
    u64,
    Option<(u64, Vec<String>)>,
))
    requires
        cached matches Some(c) ==> c.0 <= version,
    ensures
        r.1 matches Some(c) ==> c.0 < r.0,
{
    if version == u64::MAX {
        (0, None)
    } else {
        (version + 1, cached)
    }
}

/// The error of a tool that could not get its turn.
pub fn no_turn(tool_name: &str, error: &str) -> (r: ToolError)
    ensures
        r matches ToolError::ExecutionFailed { tool, message } && tool@ == tool_name@ && message@
            == "Concurrency limit error: "@ + error@,
{
    ToolError::ExecutionFailed {
        tool: tool_name.to_owned(),
        message: concat("Concurrency limit error: ", error),
    }
}

/// The error of a tool that ran too long.
pub fn ran_too_long(tool_name: &str) -> (r: ToolError)
    ensures
        r matches ToolError::Timeout(t) && t@ == tool_name@,
{
    ToolError::Timeout(tool_name.to_owned())
}

impl Default for ToolManager {
    fn default() -> (r: ToolManager)
        ensures
            r.handles() == Map::<Seq<char>, u64>::empty(),
            r.infos() == Seq::<ToolInfo>::empty(),
            r.write_limit() is None,
            r.reading_limit() is None,
            r.settings() == (ToolExecutionConfig {
                timeout_ms: 30_000,
                retry_on_fail: false,
                max_retries: 2,
                retry_delay_ms: 200,
                max_concurrency: None,
                max_read_concurrency: Some(32),
            }),
            forall|t: Seq<char>, p: Seq<char>| #[trigger] r.kept(t, p) is None,
    {
        ToolManager::new()
    }
}

/// From one retry to the next the delay does not get shorter, and it is never more than 32 times
/// the first one.
pub proof fn law_retry_delays_grow(base_ms: u64, attempt: u32)
    requires
        0 < attempt < u32::MAX,
    ensures
        base_ms <= delay_before(base_ms, attempt) <= delay_before(base_ms, (attempt + 1) as u32)
            <= 32 * base_ms,
{
    reveal_with_fuel(power_of_two, 6);
    let a = power_of_two(
        if attempt - 1 < 5 {
            (attempt - 1) as nat
        } else {
            5
        },
    );
    let b = power_of_two(
        if attempt < 5 {
            attempt as nat
        } else {
            5
        },
    );
    assert(1 <= a <= b <= 32);
    assert(base_ms <= base_ms * a <= base_ms * b <= 32 * base_ms) by (nonlinear_arith)
        requires
            1 <= a <= b <= 32,
            0 <= base_ms,
    ;
}

/// A registered tool is found under its name, the others stay as they were, and taking it out again
/// leaves what was there where the name was free.
pub proof fn law_registered_tool_is_found(
    handles: Map<Seq<char>, u64>,
    name: Seq<char>,
    handle: u64,
    other: Seq<char>,
)
    requires
        other != name,
    ensures
        ({
            let after = handles.insert(name, handle);
            &&& after.contains_key(name) && after[name] == handle
            &&& after.contains_key(other) == handles.contains_key(other)
            &&& handles.contains_key(other) ==> after[other] == handles[other]
            &&& !handles.contains_key(name) ==> after.remove(name) == handles
        }),
{
    if !handles.contains_key(name) {
        assert(handles.insert(name, handle).remove(name) =~= handles);
    }
}

/// The first retry waits as long as is set; from one retry to the next the delay doubles, up to the
/// sixth, and then stays.
pub proof fn law_retry_delay_doubles(base_ms: u64, attempt: u32)
    requires
        0 < attempt < u32::MAX,
    ensures
        delay_before(base_ms, 1) == base_ms,
        attempt <= 5 ==> delay_before(base_ms, (attempt + 1) as u32) == 2 * delay_before(
            base_ms,
            attempt,
        ),
        attempt >= 6 ==> delay_before(base_ms, (attempt + 1) as u32) == delay_before(
            base_ms,
            attempt,
        ),
{
    reveal_with_fuel(power_of_two, 7);
    assert(delay_before(base_ms, 1) == base_ms * 1);
    if attempt <= 5 {
        let a = power_of_two((attempt - 1) as nat);
        assert(power_of_two(attempt as nat) == 2 * a);
        assert(base_ms * (2 * a) == 2 * (base_ms * a)) by (nonlinear_arith);
    }
}

/// Tools that are registered one after the other are found under their names, each under the number
/// that follows that of the one before it; of several with one name the last counts, and tools of
/// other names stay.
pub proof fn law_tools_are_registered_in_order(
    handles: Map<Seq<char>, u64>,
    first: nat,
    infos: Seq<ToolInfo>,
    i: int,
    name: Seq<char>,
)
    ensures
        0 <= i < infos.len() ==> ToolManager::registered(handles, first, infos).contains_key(
            infos[i].definition.name@,
        ),
        0 <= i < infos.len() && (forall|k: int|
            i < k < infos.len() ==> (#[trigger] infos[k]).definition.name@
                != infos[i].definition.name@) ==> ToolManager::registered(
            handles,
            first,
            infos,
        )[infos[i].definition.name@] == (first + i) as u64,
        (forall|k: int| 0 <= k < infos.len() ==> (#[trigger] infos[k]).definition.name@ != name) ==> (
        ToolManager::registered(handles, first, infos).contains_key(name) == handles.contains_key(
            name,
        ) && (handles.contains_key(name) ==> ToolManager::registered(handles, first, infos)[name]
            == handles[name])),
    decreases infos.len(),
{
    if infos.len() > 0 {
        let front = infos.drop_last();
        law_tools_are_registered_in_order(handles, first, front, i, name);
        assert(infos[infos.len() - 1] == infos.last());
        assert(forall|k: int| 0 <= k < front.len() ==> #[trigger] front[k] == infos[k]);
        if forall|k: int| 0 <= k < infos.len() ==> (#[trigger] infos[k]).definition.name@ != name {
            assert forall|k: int| 0 <= k < front.len() implies (
            #[trigger] front[k]).definition.name@ != name by {
                assert(front[k] == infos[k]);
            }
        }
        if 0 <= i < front.len() && (forall|k: int|
            i < k < infos.len() ==> (#[trigger] infos[k]).definition.name@
                != infos[i].definition.name@) {
            assert forall|k: int| i < k < front.len() implies (
            #[trigger] front[k]).definition.name@ != front[i].definition.name@ by {
                assert(front[k] == infos[k]);
            }
        }
    }
}

/// A limit on tools that run at once lets at least one of them run, and is otherwise as it was set.
pub proof fn law_limits_let_tools_run(n: usize)
    ensures
        at_least_one(Some(n)) == Some(
            if n == 0 {
                1usize
            } else {
                n
            },
        ),
        at_least_one(None) is None,
{
}

} // verus!
