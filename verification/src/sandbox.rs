//! Sandbox commands, their limits and their results.

use vstd::prelude::*;
use crate::table::Table;
use crate::text::{opt_str, strs};

verus! {

/// How strongly a command is isolated, from weakest to strongest.
#[derive(Debug, Clone, Copy, PartialEq, Eq, Structural, PartialOrd, Ord)]
pub enum IsolationLevel {
    /// Not at all.
    Unconfined,
    /// By process limits.
    Process,
    /// By a sandbox of the operating system.
    OsSandbox,
    /// By a container.
    Container,
    /// By an orchestrated workload.
    Orchestrated,
}

impl IsolationLevel {
    /// The name of the level.
    pub fn label(&self) -> (r: &'static str)
        ensures
            r@ == match self {
                IsolationLevel::Unconfined => "none"@,
                IsolationLevel::Process => "process"@,
                IsolationLevel::OsSandbox => "os-sandbox"@,
                IsolationLevel::Container => "container"@,
                IsolationLevel::Orchestrated => "orchestrated"@,
            },
    {
        match self {
            IsolationLevel::Unconfined => "none",
            IsolationLevel::Process => "process",
            IsolationLevel::OsSandbox => "os-sandbox",
            IsolationLevel::Container => "container",
            IsolationLevel::Orchestrated => "orchestrated",
        }
    }
}

/// What is to be executed.
pub enum CommandKind {
    /// A shell command.
    Shell(String),
    /// A program with arguments.
    Program { program: String, args: Vec<String> },
    /// A piece of code in a language.
    Code { language: String, code: String },
}

/// What a kind of command holds.
pub enum KindView {
    Shell(Seq<char>),
    Program(Seq<char>, Seq<Seq<char>>),
    Code(Seq<char>, Seq<char>),
}

impl View for CommandKind {
    type V = KindView;

    open spec fn view(&self) -> KindView {
        match self {
            CommandKind::Shell(c) => KindView::Shell(c@),
            CommandKind::Program { program, args } => KindView::Program(program@, strs(args@)),
            CommandKind::Code { language, code } => KindView::Code(language@, code@),
        }
    }
}

/// A command for a sandbox.
pub struct SandboxCommand {
    /// What is to be executed.
    pub kind: CommandKind,
    /// Working directory.
    pub working_dir: Option<String>,
    /// Environment variables.
    pub env: Table<String>,
    /// Time limit in milliseconds.
    pub timeout_ms: u64,
    /// Standard input.
    pub stdin: Option<String>,
}

/// Time limit of a command for which none is set, in milliseconds.
pub const DEFAULT_TIMEOUT_MS: u64 = 30_000;

impl SandboxCommand {
    /// Whether nothing but the kind is set.
    pub open spec fn is_plain(&self, kind: KindView) -> bool {
        &&& self.kind@ == kind
        &&& self.working_dir is None
        &&& self.env@ == Map::<Seq<char>, String>::empty()
        &&& self.timeout_ms == DEFAULT_TIMEOUT_MS
        &&& self.stdin is None
    }

    fn of(kind: CommandKind) -> (r: SandboxCommand)
        ensures
            r.is_plain(kind@),
    {
        SandboxCommand {
            kind,
            working_dir: None,
            env: Table::new(),
            timeout_ms: DEFAULT_TIMEOUT_MS,
            stdin: None,
        }
    }

    /// A shell command.
    pub fn shell(cmd: &str) -> (r: SandboxCommand)
        ensures
            r.is_plain(KindView::Shell(cmd@)),
    {
        SandboxCommand::of(CommandKind::Shell(cmd.to_owned()))
    }

    /// A program with arguments.
    pub fn program(program: &str, args: Vec<String>) -> (r: SandboxCommand)
        ensures
            r.is_plain(KindView::Program(program@, strs(args@))),
    {
        SandboxCommand::of(CommandKind::Program { program: program.to_owned(), args })
    }

    /// A piece of code in a language.
    pub fn code(language: &str, code: &str) -> (r: SandboxCommand)
        ensures
            r.is_plain(KindView::Code(language@, code@)),
    {
        SandboxCommand::of(
            CommandKind::Code { language: language.to_owned(), code: code.to_owned() },
        )
    }

    /// The command with a working directory.
    pub fn with_working_dir(self, dir: &str) -> (r: SandboxCommand)
        ensures
            opt_str(r.working_dir) == Some(dir@),
            r == (SandboxCommand { working_dir: r.working_dir, ..self }),
    {
        let mut r = self;
        r.working_dir = Some(dir.to_owned());
        r
    }

    /// The command with a time limit in milliseconds.
    pub fn with_timeout(self, timeout_ms: u64) -> (r: SandboxCommand)
        ensures
            r == (SandboxCommand { timeout_ms, ..self }),
    {
        let mut r = self;
        r.timeout_ms = timeout_ms;
        r
    }

    /// The command with an environment variable set.
    pub fn with_env(self, key: &str, value: &str) -> (r: SandboxCommand)
        ensures
            r.env@.dom() == self.env@.dom().insert(key@),
            r.env@[key@]@ == value@,
            forall|k: Seq<char>|
                k != key@ && #[trigger] self.env@.contains_key(k) ==> r.env@[k] == self.env@[k],
            r == (SandboxCommand { env: r.env, ..self }),
    {
        let SandboxCommand { kind, working_dir, env, timeout_ms, stdin } = self;
        let mut vars = env;
        let v = value.to_owned();
        vars.insert(key.to_owned(), v);
        assert(vars@.dom() =~= self.env@.dom().insert(key@));
        SandboxCommand { kind, working_dir, env: vars, timeout_ms, stdin }
    }

    /// The command with a standard input.
    pub fn with_stdin(self, stdin: &str) -> (r: SandboxCommand)
        ensures
            opt_str(r.stdin) == Some(stdin@),
            r == (SandboxCommand { stdin: r.stdin, ..self }),
    {
        let mut r = self;
        r.stdin = Some(stdin.to_owned());
        r
    }
}

/// What came of a command.
#[derive(Debug)]
pub struct ExecutionResult {
    /// Exit code; 0 means success.
    pub exit_code: i32,
    /// Standard output.
    pub stdout: String,
    /// Standard error.
    pub stderr: String,
    /// How long it took, in milliseconds.
    pub duration_ms: u64,
    /// Which sandbox was used.
    pub sandbox_type: String,
    /// Whether the time limit ended it.
    pub timed_out: bool,
}

impl ExecutionResult {
    /// Whether the command succeeded.
    pub fn success(&self) -> (r: bool)
        ensures
            r == (self.exit_code == 0 && !self.timed_out),
    {
        self.exit_code == 0 && !self.timed_out
    }

    /// Standard output and standard error, on lines of their own where both are there.
    pub fn combined_output(&self) -> (r: String)
        ensures
            r@ == if self.stderr@.len() == 0 {
                self.stdout@
            } else if self.stdout@.len() == 0 {
                self.stderr@
            } else {
                self.stdout@ + "\n"@ + self.stderr@
            },
    {
        if self.stderr.as_str().is_empty() {
            self.stdout.clone()
        } else if self.stdout.as_str().is_empty() {
            self.stderr.clone()
        } else {
            let mut r = self.stdout.clone();
            r.push_str("\n");
            r.push_str(self.stderr.as_str());
            r
        }
    }
}

/// Limits on what a command may use.
#[derive(Debug)]
pub struct ResourceLimits {
    /// Longest run in seconds.
    pub cpu_time_secs: Option<u64>,
    /// Most memory in bytes.
    pub memory_bytes: Option<u64>,
    /// Longest output in bytes.
    pub max_output_bytes: Option<u64>,
    /// Most processes.
    pub max_processes: Option<u32>,
    /// Whether the network may be used.
    pub network: bool,
    /// Paths that may be read.
    pub read_only_paths: Vec<String>,
    /// Paths that may be written.
    pub writable_paths: Vec<String>,
}

impl ResourceLimits {
    /// Whether no path may be read or written.
    pub open spec fn without_paths(&self) -> bool {
        self.read_only_paths@.len() == 0 && self.writable_paths@.len() == 0
    }

    /// No limits, for trusted environments.
    pub fn unrestricted() -> (r: ResourceLimits)
        ensures
            r.cpu_time_secs is None,
            r.memory_bytes is None,
            r.max_output_bytes is None,
            r.max_processes is None,
            r.network,
            r.without_paths(),
    {
        ResourceLimits {
            cpu_time_secs: None,
            memory_bytes: None,
            max_output_bytes: None,
            max_processes: None,
            network: true,
            read_only_paths: Vec::new(),
            writable_paths: Vec::new(),
        }
    }

    /// Strict limits, for untrusted code.
    pub fn strict() -> (r: ResourceLimits)
        ensures
            r.cpu_time_secs == Some(10u64),
            r.memory_bytes == Some(67_108_864u64),
            r.max_output_bytes == Some(262_144u64),
            r.max_processes == Some(8u32),
            !r.network,
            r.without_paths(),
    {
        ResourceLimits {
            cpu_time_secs: Some(10),
            memory_bytes: Some(67_108_864),
            max_output_bytes: Some(262_144),
            max_processes: Some(8),
            network: false,
            read_only_paths: Vec::new(),
            writable_paths: Vec::new(),
        }
    }
}

impl Default for ResourceLimits {
    fn default() -> (r: ResourceLimits)
        ensures
            r.cpu_time_secs == Some(30u64),
            r.memory_bytes == Some(268_435_456u64),
            r.max_output_bytes == Some(1_048_576u64),
            r.max_processes == Some(64u32),
            !r.network,
            r.without_paths(),
    {
        ResourceLimits {
            cpu_time_secs: Some(30),
            memory_bytes: Some(268_435_456),
            max_output_bytes: Some(1_048_576),
            max_processes: Some(64),
            network: false,
            read_only_paths: Vec::new(),
            writable_paths: Vec::new(),
        }
    }
}

} // verus!
