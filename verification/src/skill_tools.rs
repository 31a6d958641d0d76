//! The tools that run the scripts of skills and read their resources.
//!
//! What touches the file system and processes is done by whoever uses this module: it asks before
//! each step, and hands back what the step gave.

use vstd::prelude::*;
use crate::error::ToolError;
use crate::json::JsonView;
use crate::lists::copy_strings;
use crate::paths::{
    absolute, climbs, is_absolute, is_path_traversal_safe, is_within, parent, parent_of, within,
};
use crate::patterns::{opt_words, shell_words, split_words};
use crate::skill_registry::SkillRegistry;
use crate::skills::tools_permit;
use crate::text::{
    add_to, concat, contains, decimal, decimal_int, ends_with, extend, join, joined,
    law_text_is_split_at_each, lemma_split_some, lower_ascii, lowered, no_strings, number,
    number_signed, occurs_at, same, split, split_on, strs, trim, trimmed,
};
use crate::tools::{ToolCallParams, ToolResult};

verus! {

/// Time limit of a script in seconds, where none is set.
pub const DEFAULT_TIMEOUT_SECS: u64 = 30;

/// The size up to which a resource is read, in bytes, where none is set.
pub const DEFAULT_MAX_RESOURCE_BYTES: u64 = 1_048_576;

/// The name of the tool that runs scripts.
pub const RUN_SCRIPT: &'static str = "run_skill_script";

/// The name of the tool that reads resources.
pub const READ_RESOURCE: &'static str = "read_skill_resource";

// ── Requests ────────────────────────────────────────────────────────────────────────────────

/// A request to run a script.
pub struct ScriptRequest {
    pub skill_name: String,
    pub script: String,
    pub args: String,
}

/// A request to read a resource.
pub struct ResourceRequest {
    pub skill_name: String,
    pub path: String,
}

/// The text of a parameter.
pub open spec fn text_param(params: ToolCallParams, key: Seq<char>) -> Option<Seq<char>> {
    JsonView::Object(params.params()).text_field(key)
}

/// Whether an error says that a parameter is missing.
pub open spec fn missing(e: ToolError, key: Seq<char>) -> bool {
    e matches ToolError::MissingParameter(k) && k@ == key
}

fn required(params: &ToolCallParams, key: &str) -> (r: Result<String, ToolError>)
    ensures
        match r {
            Ok(s) => text_param(*params, key@) == Some(s@),
            Err(e) => text_param(*params, key@) is None && missing(e, key@),
        },
{
    match params.get_str(key) {
        Some(s) => Ok(s.to_owned()),
        None => Err(ToolError::MissingParameter(key.to_owned())),
    }
}

/// Reads a request to run a script.
pub fn script_request(params: &ToolCallParams) -> (r: Result<ScriptRequest, ToolError>)
    ensures
        match r {
            Ok(q) => {
                &&& text_param(*params, "skill_name"@) == Some(q.skill_name@)
                &&& text_param(*params, "script"@) == Some(q.script@)
                &&& q.args@ == match text_param(*params, "args"@) {
                    Some(a) => a,
                    None => Seq::empty(),
                }
            },
            Err(e) => if text_param(*params, "skill_name"@) is None {
                missing(e, "skill_name"@)
            } else {
                text_param(*params, "script"@) is None && missing(e, "script"@)
            },
        },
{
    let skill_name = match required(params, "skill_name") {
        Ok(s) => s,
        Err(e) => {
            return Err(e);
        },
    };
    let script = match required(params, "script") {
        Ok(s) => s,
        Err(e) => {
            return Err(e);
        },
    };
    let args = match params.get_str("args") {
        Some(a) => a.to_owned(),
        None => String::new(),
    };
    assert(args@ =~= match text_param(*params, "args"@) {
        Some(a) => a,
        None => Seq::empty(),
    });
    Ok(ScriptRequest { skill_name, script, args })
}

/// Reads a request to read a resource.
pub fn resource_request(params: &ToolCallParams) -> (r: Result<ResourceRequest, ToolError>)
    ensures
        match r {
            Ok(q) => text_param(*params, "skill_name"@) == Some(q.skill_name@) && text_param(
                *params,
                "path"@,
            ) == Some(q.path@),
            Err(e) => if text_param(*params, "skill_name"@) is None {
                missing(e, "skill_name"@)
            } else {
                text_param(*params, "path"@) is None && missing(e, "path"@)
            },
        },
{
    let skill_name = match required(params, "skill_name") {
        Ok(s) => s,
        Err(e) => {
            return Err(e);
        },
    };
    match required(params, "path") {
        Ok(path) => Ok(ResourceRequest { skill_name, path }),
        Err(e) => Err(e),
    }
}

// ── Permission ──────────────────────────────────────────────────────────────────────────────

/// Why a tool may not be used for a skill; nothing where it may.
pub open spec fn skill_refusal(
    reg: SkillRegistry,
    skill: Seq<char>,
    tool: Seq<char>,
) -> Option<Seq<char>> {
    let d = reg.descriptors()[skill];
    if !reg.active().contains(skill) {
        Some("Skill '"@ + skill + "' has not been activated. Call activate_skill first."@)
    } else if !reg.descriptors().contains_key(skill) {
        Some("Skill '"@ + skill + "' not found in catalog"@)
    } else if !tools_permit(strs(d.allowed_tools@), tool) {
        Some(
            "Skill '"@ + skill + "' does not permit tool '"@ + tool + "'; allowed-tools: "@ + join(
                strs(d.allowed_tools@),
                ", "@,
            ),
        )
    } else if parent(d.location@) is None {
        Some("Cannot determine skill directory for '"@ + skill + "'"@)
    } else {
        None
    }
}

/// The directory of a skill for which a tool may be used, or the refusal.
fn permitted_directory(reg: &SkillRegistry, skill: &str, tool: &str) -> (r: Result<
    String,
    ToolResult,
>)
    ensures
        match r {
            Ok(dir) => skill_refusal(*reg, skill@, tool@) is None && parent(
                reg.descriptors()[skill@].location@,
            ) == Some(dir@),
            Err(t) => skill_refusal(*reg, skill@, tool@) is Some && t.failed_with(
                skill_refusal(*reg, skill@, tool@)->0,
            ) && t.output@.len() == 0,
        },
{
    if !reg.is_activated(skill) {
        let mut m = concat("Skill '", skill);
        m.push_str("' has not been activated. Call activate_skill first.");
        return Err(ToolResult::error(m.as_str()));
    }
    let d = match reg.get_descriptor(skill) {
        Some(d) => d,
        None => {
            let mut m = concat("Skill '", skill);
            m.push_str("' not found in catalog");
            return Err(ToolResult::error(m.as_str()));
        },
    };
    if !d.permits_tool(tool) {
        let mut m = concat("Skill '", skill);
        m.push_str("' does not permit tool '");
        m.push_str(tool);
        m.push_str("'; allowed-tools: ");
        m.push_str(joined(&d.allowed_tools, ", ").as_str());
        return Err(ToolResult::error(m.as_str()));
    }
    match parent_of(d.location.as_str()) {
        Some(dir) => Ok(dir),
        None => {
            let mut m = concat("Cannot determine skill directory for '", skill);
            m.push_str("'");
            Err(ToolResult::error(m.as_str()))
        },
    }
}

/// Why a script may not be run; nothing where it may.
pub open spec fn script_refusal(
    reg: SkillRegistry,
    skill: Seq<char>,
    script: Seq<char>,
) -> Option<Seq<char>> {
    if absolute(script) || climbs(script) {
        Some("Script path must be a relative path inside the activated skill directory"@)
    } else {
        skill_refusal(reg, skill, RUN_SCRIPT@)
    }
}

/// The directory of the skill whose script may be run, or the refusal.
pub fn script_directory(reg: &SkillRegistry, request: &ScriptRequest) -> (r: Result<
    String,
    ToolResult,
>)
    ensures
        match r {
            Ok(dir) => script_refusal(*reg, request.skill_name@, request.script@) is None
                && parent(reg.descriptors()[request.skill_name@].location@) == Some(dir@),
            Err(t) => script_refusal(*reg, request.skill_name@, request.script@) is Some
                && t.failed_with(
                script_refusal(*reg, request.skill_name@, request.script@)->0,
            ) && t.output@.len() == 0,
        },
{
    if is_absolute(request.script.as_str()) || !is_path_traversal_safe(request.script.as_str()) {
        return Err(
            ToolResult::error(
                "Script path must be a relative path inside the activated skill directory",
            ),
        );
    }
    permitted_directory(reg, request.skill_name.as_str(), RUN_SCRIPT)
}

/// Why a resource may not be read; nothing where it may.
pub open spec fn resource_refusal(
    reg: SkillRegistry,
    skill: Seq<char>,
    path: Seq<char>,
) -> Option<Seq<char>> {
    if climbs(path) {
        Some("Path traversal ('..') is not allowed in resource paths"@)
    } else {
        skill_refusal(reg, skill, READ_RESOURCE@)
    }
}

/// The directory of the skill whose resource may be read, or the refusal.
pub fn resource_directory(reg: &SkillRegistry, request: &ResourceRequest) -> (r: Result<
    String,
    ToolResult,
>)
    ensures
        match r {
            Ok(dir) => resource_refusal(*reg, request.skill_name@, request.path@) is None
                && parent(reg.descriptors()[request.skill_name@].location@) == Some(dir@),
            Err(t) => resource_refusal(*reg, request.skill_name@, request.path@) is Some
                && t.failed_with(
                resource_refusal(*reg, request.skill_name@, request.path@)->0,
            ) && t.output@.len() == 0,
        },
{
    if !is_path_traversal_safe(request.path.as_str()) {
        return Err(ToolResult::error("Path traversal ('..') is not allowed in resource paths"));
    }
    permitted_directory(reg, request.skill_name.as_str(), READ_RESOURCE)
}

/// The refusal of a script whose resolved path is not within the resolved directory.
pub fn check_script_inside(script: &str, dir: &str) -> (r: Option<ToolResult>)
    ensures
        match r {
            Some(t) => !within(script@, dir@) && t.failed_with(
                "Resolved script path escapes the skill directory"@,
            ) && t.output@.len() == 0,
            None => within(script@, dir@),
        },
{
    if is_within(script, dir) {
        None
    } else {
        Some(ToolResult::error("Resolved script path escapes the skill directory"))
    }
}

/// The refusal of a resource whose resolved path is not within the resolved directory.
pub fn check_resource_inside(resource: &str, dir: &str) -> (r: Option<ToolResult>)
    ensures
        match r {
            Some(t) => !within(resource@, dir@) && t.failed_with(
                "Resolved path escapes the skill directory"@,
            ) && t.output@.len() == 0,
            None => within(resource@, dir@),
        },
{
    if is_within(resource, dir) {
        None
    } else {
        Some(ToolResult::error("Resolved path escapes the skill directory"))
    }
}

// ── Interpreters ────────────────────────────────────────────────────────────────────────────

/// Which interpreters the machine has.
pub struct Interpreters {
    /// Whether the machine runs Windows.
    pub windows: bool,
    pub python: bool,
    pub python3: bool,
    pub bun: bool,
    pub deno: bool,
    pub wsl: bool,
    pub pwsh: bool,
    /// The path of Git Bash on Windows.
    pub git_bash: Option<String>,
}

/// How a script is run: a program, and what stands between it and the script.
pub struct Invocation {
    pub program: String,
    pub prefix_args: Vec<String>,
}

impl Invocation {
    /// Whether this is a program with certain arguments.
    pub open spec fn is(&self, program: Seq<char>, args: Seq<Seq<char>>) -> bool {
        self.program@ == program && strs(self.prefix_args@) == args
    }

    /// A program that takes the script as its first argument.
    pub fn simple(program: &str) -> (r: Invocation)
        ensures
            r.is(program@, Seq::empty()),
    {
        Invocation { program: program.to_owned(), prefix_args: no_strings() }
    }

    /// A program with arguments before the script.
    pub fn new(program: &str, prefix_args: Vec<String>) -> (r: Invocation)
        ensures
            r.is(program@, strs(prefix_args@)),
    {
        Invocation { program: program.to_owned(), prefix_args }
    }
}

/// A program and the arguments before the script.
pub type InvocationView = (Seq<char>, Seq<Seq<char>>);

/// How Python is run.
pub open spec fn python_for(m: Interpreters) -> InvocationView {
    if m.windows {
        if m.python {
            ("python"@, Seq::empty())
        } else {
            ("py"@, seq!["-3"@])
        }
    } else if m.python3 {
        ("python3"@, Seq::empty())
    } else {
        ("python"@, Seq::empty())
    }
}

/// How TypeScript is run.
pub open spec fn typescript_for(m: Interpreters) -> InvocationView {
    if m.bun {
        ("bun"@, Seq::empty())
    } else if m.deno {
        ("deno"@, seq!["run"@, "--allow-read"@, "--allow-env"@])
    } else {
        ("npx"@, seq!["tsx"@])
    }
}

/// How PowerShell scripts are run.
pub open spec fn powershell_for(m: Interpreters) -> InvocationView {
    if m.pwsh {
        ("pwsh"@, seq!["-NoProfile"@, "-NonInteractive"@, "-File"@])
    } else if m.windows {
        (
            "powershell"@,
            seq!["-NoProfile"@, "-NonInteractive"@, "-ExecutionPolicy"@, "Bypass"@, "-File"@],
        )
    } else {
        ("sh"@, Seq::empty())
    }
}

/// How shell scripts are run.
pub open spec fn shell_for(m: Interpreters) -> InvocationView {
    if m.windows {
        match m.git_bash {
            Some(p) => (p@, Seq::empty()),
            None => if m.wsl {
                ("wsl"@, seq!["bash"@])
            } else {
                powershell_for(m)
            },
        }
    } else {
        ("bash"@, Seq::empty())
    }
}

/// What stands behind the last period of a path, in lower case; the whole path without one.
pub open spec fn extension(path: Seq<char>) -> Seq<char> {
    lower_ascii(split(path, '.').last())
}

/// How a script is run, by the end of its name.
pub open spec fn interpreter_for(path: Seq<char>, m: Interpreters) -> InvocationView {
    let e = extension(path);
    if e == "py"@ {
        python_for(m)
    } else if e == "js"@ || e == "mjs"@ || e == "cjs"@ {
        ("node"@, Seq::empty())
    } else if e == "ts"@ || e == "mts"@ || e == "tsx"@ {
        typescript_for(m)
    } else if e == "sh"@ || e == "bash"@ {
        shell_for(m)
    } else if e == "ps1"@ {
        powershell_for(m)
    } else if e == "rb"@ {
        ("ruby"@, Seq::empty())
    } else if e == "pl"@ {
        ("perl"@, Seq::empty())
    } else if e == "php"@ {
        ("php"@, Seq::empty())
    } else if e == "r"@ {
        ("Rscript"@, Seq::empty())
    } else {
        shell_for(m)
    }
}

fn one(a: &str) -> (r: Vec<String>)
    ensures
        strs(r@) == seq![a@],
{
    let mut v = no_strings();
    add_to(&mut v, a);
    assert(strs(v@) =~= seq![a@]);
    v
}

/// How Python is run.
pub fn resolve_python(m: &Interpreters) -> (r: Invocation)
    ensures
        r.is(python_for(*m).0, python_for(*m).1),
{
    if m.windows {
        if m.python {
            Invocation::simple("python")
        } else {
            Invocation::new("py", one("-3"))
        }
    } else if m.python3 {
        Invocation::simple("python3")
    } else {
        Invocation::simple("python")
    }
}

/// How TypeScript is run.
pub fn resolve_typescript(m: &Interpreters) -> (r: Invocation)
    ensures
        r.is(typescript_for(*m).0, typescript_for(*m).1),
{
    if m.bun {
        Invocation::simple("bun")
    } else if m.deno {
        let mut v = one("run");
        add_to(&mut v, "--allow-read");
        add_to(&mut v, "--allow-env");
        assert(strs(v@) =~= seq!["run"@, "--allow-read"@, "--allow-env"@]);
        Invocation::new("deno", v)
    } else {
        Invocation::new("npx", one("tsx"))
    }
}

/// How PowerShell scripts are run.
pub fn resolve_powershell(m: &Interpreters) -> (r: Invocation)
    ensures
        r.is(powershell_for(*m).0, powershell_for(*m).1),
{
    if m.pwsh {
        let mut v = one("-NoProfile");
        add_to(&mut v, "-NonInteractive");
        add_to(&mut v, "-File");
        assert(strs(v@) =~= seq!["-NoProfile"@, "-NonInteractive"@, "-File"@]);
        Invocation::new("pwsh", v)
    } else if m.windows {
        let mut v = one("-NoProfile");
        add_to(&mut v, "-NonInteractive");
        add_to(&mut v, "-ExecutionPolicy");
        add_to(&mut v, "Bypass");
        add_to(&mut v, "-File");
        assert(strs(v@) =~= seq![
            "-NoProfile"@,
            "-NonInteractive"@,
            "-ExecutionPolicy"@,
            "Bypass"@,
            "-File"@,
        ]);
        Invocation::new("powershell", v)
    } else {
        Invocation::simple("sh")
    }
}

/// How shell scripts are run.
pub fn resolve_shell(m: &Interpreters) -> (r: Invocation)
    ensures
        r.is(shell_for(*m).0, shell_for(*m).1),
{
    if m.windows {
        match &m.git_bash {
            Some(p) => Invocation::simple(p.as_str()),
            None => {
                if m.wsl {
                    Invocation::new("wsl", one("bash"))
                } else {
                    resolve_powershell(m)
                }
            },
        }
    } else {
        Invocation::simple("bash")
    }
}

/// How a script is run, by the end of its name.
pub fn resolve_interpreter(script_path: &str, m: &Interpreters) -> (r: Invocation)
    ensures
        r.is(interpreter_for(script_path@, *m).0, interpreter_for(script_path@, *m).1),
{
    let parts = split_on(script_path, '.');
    proof {
        lemma_split_some(script_path@, '.');
    }
    let ext = lowered(parts[parts.len() - 1].as_str());
    let e = ext.as_str();
    if same(e, "py") {
        resolve_python(m)
    } else if same(e, "js") || same(e, "mjs") || same(e, "cjs") {
        Invocation::simple("node")
    } else if same(e, "ts") || same(e, "mts") || same(e, "tsx") {
        resolve_typescript(m)
    } else if same(e, "sh") || same(e, "bash") {
        resolve_shell(m)
    } else if same(e, "ps1") {
        resolve_powershell(m)
    } else if same(e, "rb") {
        Invocation::simple("ruby")
    } else if same(e, "pl") {
        Invocation::simple("perl")
    } else if same(e, "php") {
        Invocation::simple("php")
    } else if same(e, "r") {
        Invocation::simple("Rscript")
    } else {
        resolve_shell(m)
    }
}

// ── Arguments ───────────────────────────────────────────────────────────────────────────────

/// The error about arguments that are not well formed.
pub open spec fn malformed_arguments(e: ToolError) -> bool {
    e matches ToolError::InvalidParameter { name, message } && name@ == "args"@ && message@
        == "Malformed script arguments: unmatched quotes or escapes"@
}

/// The arguments of the program: those before the script, the script, and the words of the request.
pub fn arguments_given(
    invocation: &Invocation,
    script: &str,
    words: Option<Vec<String>>,
) -> (r: Result<Vec<String>, ToolError>)
    ensures
        match r {
            Ok(v) => words is Some && strs(v@) == strs(invocation.prefix_args@).push(script@)
                + opt_words(words)->0,
            Err(e) => words is None && malformed_arguments(e),
        },
{
    match words {
        Some(w) => {
            let mut v = copy_strings(&invocation.prefix_args);
            add_to(&mut v, script);
            extend(&mut v, w);
            Ok(v)
        },
        None => Err(
            ToolError::InvalidParameter {
                name: "args".to_owned(),
                message: "Malformed script arguments: unmatched quotes or escapes".to_owned(),
            },
        ),
    }
}

/// The arguments of the program that runs a script.
pub fn script_arguments(invocation: &Invocation, script: &str, args: &str) -> (r: Result<
    Vec<String>,
    ToolError,
>)
    ensures
        match r {
            Ok(v) => if args@.len() == 0 {
                strs(v@) == strs(invocation.prefix_args@).push(script@)
            } else {
                shell_words(args@) is Some && strs(v@) == strs(invocation.prefix_args@).push(
                    script@,
                ) + shell_words(args@)->0
            },
            Err(e) => args@.len() > 0 && shell_words(args@) is None && malformed_arguments(e),
        },
{
    if args.is_empty() {
        let none = no_strings();
        assert(strs(invocation.prefix_args@).push(script@) + Seq::<Seq<char>>::empty() =~= strs(
            invocation.prefix_args@,
        ).push(script@));
        return arguments_given(invocation, script, Some(none));
    }
    let words = split_words(args);
    arguments_given(invocation, script, words)
}

// ── Results ─────────────────────────────────────────────────────────────────────────────────

/// The output of a script as a block for the model.
pub open spec fn script_block(
    skill: Seq<char>,
    script: Seq<char>,
    exit_code: int,
    stdout: Seq<char>,
    stderr: Seq<char>,
    sandbox: Seq<char>,
) -> Seq<char> {
    let head = "<script_output skill=\""@ + skill + "\" script=\""@ + script + "\" exit_code=\""@
        + decimal_int(exit_code) + "\" sandbox=\""@ + sandbox + "\">\n"@;
    let with_out = if stdout.len() == 0 {
        head
    } else if "\n"@.is_suffix_of(stdout) {
        head + stdout
    } else {
        head + stdout + "\n"@
    };
    let with_err = if stderr.len() == 0 {
        with_out
    } else {
        with_out + "\n<stderr>\n"@ + trim(stderr) + "</stderr>\n"@
    };
    with_err + "</script_output>"@
}

/// The result of a script that ran: a success where its exit code is zero.
pub fn format_execution_result(
    skill_name: &str,
    script_path: &str,
    exit_code: i32,
    stdout: &str,
    stderr: &str,
    sandbox_type: &str,
) -> (r: ToolResult)
    ensures
        r.output@ == script_block(
            skill_name@,
            script_path@,
            exit_code as int,
            stdout@,
            stderr@,
            sandbox_type@,
        ),
        if exit_code == 0 {
            r.success && r.kind is Text && r.error is None && r.is_plain()
        } else {
            r.failed_with(
                "Script '"@ + script_path@ + "' exited with code "@ + decimal_int(
                    exit_code as int,
                ),
            )
        },
{
    let mut out = concat("<script_output skill=\"", skill_name);
    out.push_str("\" script=\"");
    out.push_str(script_path);
    out.push_str("\" exit_code=\"");
    out.push_str(number_signed(exit_code).as_str());
    out.push_str("\" sandbox=\"");
    out.push_str(sandbox_type);
    out.push_str("\">\n");
    if !stdout.is_empty() {
        out.push_str(stdout);
        if !ends_with(stdout, "\n") {
            out.push_str("\n");
        }
    }
    if !stderr.is_empty() {
        out.push_str("\n<stderr>\n");
        out.push_str(trimmed(stderr).as_str());
        out.push_str("</stderr>\n");
    }
    out.push_str("</script_output>");
    if exit_code == 0 {
        ToolResult::success(out.as_str())
    } else {
        let mut m = concat("Script '", script_path);
        m.push_str("' exited with code ");
        m.push_str(number_signed(exit_code).as_str());
        ToolResult::error(m.as_str()).with_output(out.as_str())
    }
}

/// Why a step on the way to a script or a resource failed.
pub enum StepFailure {
    /// The directory of the skill cannot be resolved.
    Directory { error: String },
    /// The script cannot be resolved.
    Script { error: String },
    /// The script is not there.
    NoScript,
    /// The sandbox failed.
    Sandbox { error: String },
    /// The script cannot be started.
    Start { error: String },
    /// The script ran too long.
    TooLong { seconds: u64 },
    /// The resource is not there.
    NoResource,
    /// The resource cannot be examined.
    Stat { error: String },
    /// The resource is too large.
    TooLarge { bytes: u64, limit: u64 },
    /// The resource cannot be read.
    Read { error: String },
}

/// The message about a failed step.
pub open spec fn failure_text(f: StepFailure, skill: Seq<char>, path: Seq<char>) -> Seq<char> {
    match f {
        StepFailure::Directory { error } => "Cannot canonicalize skill directory for '"@ + skill
            + "': "@ + error@,
        StepFailure::Script { error } => "Cannot canonicalize script '"@ + path + "': "@ + error@,
        StepFailure::NoScript => "Script not found: "@ + path + " (in skill '"@ + skill + "')"@,
        StepFailure::Sandbox { error } => "Sandbox execution failed for '"@ + path + "' in skill '"@
            + skill + "': "@ + error@,
        StepFailure::Start { error } => "Failed to execute '"@ + path + "' in skill '"@ + skill
            + "': "@ + error@ + ". Ensure the interpreter is installed and on PATH."@,
        StepFailure::TooLong { seconds } => "Script '"@ + path + "' in skill '"@ + skill
            + "' timed out after "@ + decimal(seconds as nat) + "s"@,
        StepFailure::NoResource => "Resource file not found: "@ + path + " (in skill '"@ + skill
            + "')"@,
        StepFailure::Stat { error } => "Cannot stat resource '"@ + path + "': "@ + error@,
        StepFailure::TooLarge { bytes, limit } => "Resource file '"@ + path
            + "' exceeds maximum size ("@ + decimal(bytes as nat) + " bytes, limit: "@ + decimal(
            limit as nat,
        ) + " bytes)"@,
        StepFailure::Read { error } => "Failed to read '"@ + path + "' in skill '"@ + skill + "': "@
            + error@,
    }
}

/// The result of a failed step.
pub fn step_failed(f: &StepFailure, skill: &str, path: &str) -> (r: ToolResult)
    ensures
        r.failed_with(failure_text(*f, skill@, path@)),
        r.output@.len() == 0,
{
    let m = match f {
        StepFailure::Directory { error } => {
            let mut m = concat("Cannot canonicalize skill directory for '", skill);
            m.push_str("': ");
            m.push_str(error.as_str());
            m
        },
        StepFailure::Script { error } => {
            let mut m = concat("Cannot canonicalize script '", path);
            m.push_str("': ");
            m.push_str(error.as_str());
            m
        },
        StepFailure::NoScript => {
            let mut m = concat("Script not found: ", path);
            m.push_str(" (in skill '");
            m.push_str(skill);
            m.push_str("')");
            m
        },
        StepFailure::Sandbox { error } => {
            let mut m = concat("Sandbox execution failed for '", path);
            m.push_str("' in skill '");
            m.push_str(skill);
            m.push_str("': ");
            m.push_str(error.as_str());
            m
        },
        StepFailure::Start { error } => {
            let mut m = concat("Failed to execute '", path);
            m.push_str("' in skill '");
            m.push_str(skill);
            m.push_str("': ");
            m.push_str(error.as_str());
            m.push_str(". Ensure the interpreter is installed and on PATH.");
            m
        },
        StepFailure::TooLong { seconds } => {
            let mut m = concat("Script '", path);
            m.push_str("' in skill '");
            m.push_str(skill);
            m.push_str("' timed out after ");
            m.push_str(number(*seconds).as_str());
            m.push_str("s");
            m
        },
        StepFailure::NoResource => {
            let mut m = concat("Resource file not found: ", path);
            m.push_str(" (in skill '");
            m.push_str(skill);
            m.push_str("')");
            m
        },
        StepFailure::Stat { error } => {
            let mut m = concat("Cannot stat resource '", path);
            m.push_str("': ");
            m.push_str(error.as_str());
            m
        },
        StepFailure::TooLarge { bytes, limit } => {
            let mut m = concat("Resource file '", path);
            m.push_str("' exceeds maximum size (");
            m.push_str(number(*bytes).as_str());
            m.push_str(" bytes, limit: ");
            m.push_str(number(*limit).as_str());
            m.push_str(" bytes)");
            m
        },
        StepFailure::Read { error } => {
            let mut m = concat("Failed to read '", path);
            m.push_str("' in skill '");
            m.push_str(skill);
            m.push_str("': ");
            m.push_str(error.as_str());
            m
        },
    };
    ToolResult::error(m.as_str())
}

/// The error of a resource tool that cannot resolve a path: that of the skill, or the resource.
pub fn unresolved(skill: Option<&str>) -> (r: ToolError)
    ensures
        r matches ToolError::ExecutionFailed { tool, message } && tool@ == READ_RESOURCE@
            && message@ == match skill {
            Some(s) => "Cannot resolve skill directory for '"@ + s@ + "'"@,
            None => "Cannot resolve resource path"@,
        },
{
    let message = match skill {
        Some(s) => {
            let mut m = concat("Cannot resolve skill directory for '", s);
            m.push_str("'");
            m
        },
        None => "Cannot resolve resource path".to_owned(),
    };
    ToolError::ExecutionFailed { tool: READ_RESOURCE.to_owned(), message }
}

/// The refusal of a resource that is too large.
pub fn check_size(bytes: u64, limit: u64, skill: &str, path: &str) -> (r: Option<ToolResult>)
    ensures
        match r {
            Some(t) => bytes > limit && t.failed_with(
                failure_text(StepFailure::TooLarge { bytes, limit }, skill@, path@),
            ) && t.output@.len() == 0,
            None => bytes <= limit,
        },
{
    if bytes > limit {
        let f = StepFailure::TooLarge { bytes, limit };
        Some(step_failed(&f, skill, path))
    } else {
        None
    }
}

/// The result with the content of a resource.
pub fn resource_result(skill: &str, path: &str, content: &str) -> (r: ToolResult)
    ensures
        r.success,
        r.kind is Text,
        r.error is None,
        r.is_plain(),
        r.output@ == "<skill_resource skill=\""@ + skill@ + "\" path=\""@ + path@ + "\">\n"@
            + content@ + "\n</skill_resource>"@,
{
    let mut out = concat("<skill_resource skill=\"", skill);
    out.push_str("\" path=\"");
    out.push_str(path);
    out.push_str("\">\n");
    out.push_str(content);
    out.push_str("\n</skill_resource>");
    ToolResult::success(out.as_str())
}

// ── Laws ────────────────────────────────────────────────────────────────────────────────────

/// A script is run and a resource is read only for a skill that is active and lists no tools or a
/// matching one, and never by a path that climbs.
pub proof fn law_only_permitted_skills(reg: SkillRegistry, skill: Seq<char>, path: Seq<char>)
    ensures
        script_refusal(reg, skill, path) is None ==> reg.active().contains(skill)
            && reg.descriptors().contains_key(skill) && tools_permit(
            strs(reg.descriptors()[skill].allowed_tools@),
            RUN_SCRIPT@,
        ) && !absolute(path) && !climbs(path),
        resource_refusal(reg, skill, path) is None ==> reg.active().contains(skill)
            && reg.descriptors().contains_key(skill) && tools_permit(
            strs(reg.descriptors()[skill].allowed_tools@),
            READ_RESOURCE@,
        ) && !climbs(path),
{
}

/// A script is run, and a resource read, whenever the skill is active and known, permits the tool, and
/// has a directory, and the path stays inside it; in every other case it is refused.
pub proof fn law_permitted_requests_are_not_refused(
    reg: SkillRegistry,
    skill: Seq<char>,
    path: Seq<char>,
)
    ensures
        script_refusal(reg, skill, path) is None <==> !absolute(path) && !climbs(path)
            && reg.active().contains(skill) && reg.descriptors().contains_key(skill) && tools_permit(
            strs(reg.descriptors()[skill].allowed_tools@),
            RUN_SCRIPT@,
        ) && parent(reg.descriptors()[skill].location@) is Some,
        resource_refusal(reg, skill, path) is None <==> !climbs(path) && reg.active().contains(skill)
            && reg.descriptors().contains_key(skill) && tools_permit(
            strs(reg.descriptors()[skill].allowed_tools@),
            READ_RESOURCE@,
        ) && parent(reg.descriptors()[skill].location@) is Some,
{
}

/// The extension of a path is what stands behind its last period, in lower case.
pub proof fn law_extension_stands_behind_the_period(stem: Seq<char>, ext: Seq<char>)
    requires
        !ext.contains('.'),
    ensures
        extension(stem + seq!['.'] + ext) == lower_ascii(ext),
{
    law_text_is_split_at_each(stem, ext, '.');
    law_text_is_split_at_each(ext, Seq::empty(), '.');
    let all = split(stem, '.') + seq![ext];
    assert(all.last() == ext);
}

/// What a script printed is told whole: its output, and what it printed as errors up to the white space
/// around it.
pub proof fn law_script_output_is_told_whole(
    skill: Seq<char>,
    script: Seq<char>,
    exit_code: int,
    stdout: Seq<char>,
    stderr: Seq<char>,
    sandbox: Seq<char>,
)
    ensures
        contains(script_block(skill, script, exit_code, stdout, stderr, sandbox), stdout),
        stderr.len() > 0 ==> contains(
            script_block(skill, script, exit_code, stdout, stderr, sandbox),
            trim(stderr),
        ),
        contains(
            script_block(skill, script, exit_code, stdout, stderr, sandbox),
            decimal_int(exit_code),
        ),
{
    let a = "<script_output skill=\""@ + skill + "\" script=\""@ + script + "\" exit_code=\""@;
    let code = decimal_int(exit_code);
    let head = a + code + "\" sandbox=\""@ + sandbox + "\">\n"@;
    let b = script_block(skill, script, exit_code, stdout, stderr, sandbox);
    let with_out = if stdout.len() == 0 {
        head
    } else if "\n"@.is_suffix_of(stdout) {
        head + stdout
    } else {
        head + stdout + "\n"@
    };
    let n = head.len() as int;
    assert(b.subrange(a.len() as int, (a.len() + code.len()) as int) =~= code);
    assert(occurs_at(b, code, a.len() as int));
    assert(b.subrange(n, n + stdout.len()) =~= stdout);
    assert(occurs_at(b, stdout, n));
    if stderr.len() > 0 {
        let i = (with_out.len() + "\n<stderr>\n"@.len()) as int;
        let e = trim(stderr);
        assert(b.subrange(i, i + e.len()) =~= e);
        assert(occurs_at(b, e, i));
    }
}

} // verus!
