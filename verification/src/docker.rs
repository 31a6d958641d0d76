//! The Docker sandbox: which command lines it uses and how it reads what came of them.

use vstd::prelude::*;
use crate::error::SandboxError;
use crate::lists::copy_strings;
use crate::sandbox::{
    CommandKind, ExecutionResult, IsolationLevel, KindView, ResourceLimits, SandboxCommand,
};
use crate::table::{increasing, table_texts, Table};
use crate::text::{
    add_to, concat, decimal, extend, fit_bytes, fitting, law_as_much_as_fits, lines, lines_of,
    no_strings, number,
    opt_str, same, starts_with, strs, text_bytes, trim, trimmed,
};

verus! {

/// The label of all containers of the sandbox.
pub const SANDBOX_LABEL: &'static str = "echo-sandbox=true";

/// Settings of the Docker sandbox.
pub struct DockerConfig {
    /// Image for commands without a language of their own.
    pub default_image: String,
    /// Image for each language.
    pub language_images: Table<String>,
    /// Whether finished containers are removed.
    pub auto_remove: bool,
    /// Whether the network is off where no limits say otherwise.
    pub disable_network: bool,
    /// Most memory in bytes where no limits say otherwise.
    pub memory_limit: Option<u64>,
    /// CPU quota.
    pub cpu_quota: Option<u64>,
    /// Whether the root file system is read-only.
    pub read_only_rootfs: bool,
    /// Further arguments for Docker.
    pub extra_args: Vec<String>,
}

/// The image for each language by default.
pub open spec fn default_images() -> Map<Seq<char>, Seq<char>> {
    map![
        "python"@ => "python:3.12-slim"@,
        "python3"@ => "python:3.12-slim"@,
        "node"@ => "node:20-slim"@,
        "javascript"@ => "node:20-slim"@,
        "ruby"@ => "ruby:3.3-slim"@,
        "go"@ => "golang:1.22-alpine"@,
        "rust"@ => "rust:1.77-slim"@,
    ]
}

fn put_text(t: &mut Table<String>, k: &str, v: &str)
    ensures
        table_texts(final(t)@) == table_texts(old(t)@).insert(k@, v@),
{
    t.insert(k.to_owned(), v.to_owned());
    assert(table_texts(t@) =~= table_texts(old(t)@).insert(k@, v@));
}

impl Default for DockerConfig {
    fn default() -> (r: DockerConfig)
        ensures
            r.default_image@ == "ubuntu:22.04"@,
            table_texts(r.language_images@) == default_images(),
            r.auto_remove,
            r.disable_network,
            r.memory_limit == Some(268_435_456u64),
            r.cpu_quota == Some(50_000u64),
            r.read_only_rootfs,
            r.extra_args@.len() == 0,
    {
        let mut language_images: Table<String> = Table::new();
        assert(table_texts(language_images@) =~= Map::<Seq<char>, Seq<char>>::empty());
        put_text(&mut language_images, "python", "python:3.12-slim");
        put_text(&mut language_images, "python3", "python:3.12-slim");
        put_text(&mut language_images, "node", "node:20-slim");
        put_text(&mut language_images, "javascript", "node:20-slim");
        put_text(&mut language_images, "ruby", "ruby:3.3-slim");
        put_text(&mut language_images, "go", "golang:1.22-alpine");
        put_text(&mut language_images, "rust", "rust:1.77-slim");
        DockerConfig {
            default_image: "ubuntu:22.04".to_owned(),
            language_images,
            auto_remove: true,
            disable_network: true,
            memory_limit: Some(268_435_456),
            cpu_quota: Some(50_000),
            read_only_rootfs: true,
            extra_args: Vec::new(),
        }
    }
}

/// The Docker sandbox.
pub struct DockerSandbox {
    /// Its settings.
    pub config: DockerConfig,
    /// Directories that may not be mounted, nor anything below them.
    pub sensitive_paths: Vec<String>,
}

// ── Command lines ───────────────────────────────────────────────────────────────────────────

/// The image that a command runs in.
pub open spec fn image_for(
    kind: KindView,
    images: Map<Seq<char>, Seq<char>>,
    default: Seq<char>,
) -> Seq<char> {
    match kind {
        KindView::Code(language, _) => if images.contains_key(language) {
            images[language]
        } else {
            default
        },
        _ => default,
    }
}

/// The interpreter of a language and the flag with which it takes code.
pub open spec fn interpreter(language: Seq<char>) -> (Seq<char>, Seq<char>) {
    if language == "python"@ || language == "python3"@ {
        ("python3"@, "-c"@)
    } else if language == "node"@ || language == "javascript"@ || language == "js"@ {
        ("node"@, "-e"@)
    } else if language == "ruby"@ {
        ("ruby"@, "-e"@)
    } else if language == "perl"@ {
        ("perl"@, "-e"@)
    } else if language == "php"@ {
        ("php"@, "-r"@)
    } else {
        ("sh"@, "-c"@)
    }
}

/// The command line within the container.
pub open spec fn inner_command(kind: KindView) -> Seq<Seq<char>> {
    match kind {
        KindView::Shell(c) => seq!["sh"@, "-c"@, c],
        KindView::Program(p, args) => seq![p] + args,
        KindView::Code(language, code) => seq![
            interpreter(language).0,
            interpreter(language).1,
            code,
        ],
    }
}

/// Whether a path is a sensitive directory or stands below it.
pub open spec fn touches(path: Seq<char>, sensitive: Seq<char>) -> bool {
    path == sensitive || (sensitive + "/"@).is_prefix_of(path)
}

/// The first of the sensitive directories that a path touches.
pub open spec fn touched(path: Seq<char>, sensitive: Seq<Seq<char>>) -> Option<Seq<char>>
    decreases sensitive.len(),
{
    if sensitive.len() == 0 {
        None
    } else if touches(path, sensitive[0]) {
        Some(sensitive[0])
    } else {
        touched(path, sensitive.drop_first())
    }
}

/// The message about the first path that may not be mounted.
pub open spec fn mount_fault(paths: Seq<Seq<char>>, sensitive: Seq<Seq<char>>) -> Option<Seq<char>>
    decreases paths.len(),
{
    if paths.len() == 0 {
        None
    } else {
        match touched(paths[0], sensitive) {
            Some(s) => Some(
                "Mount path '"@ + paths[0] + "' accesses sensitive directory '"@ + s + "'"@,
            ),
            None => mount_fault(paths.drop_first(), sensitive),
        }
    }
}

/// The mounts of paths at their own places.
pub open spec fn mounts(paths: Seq<Seq<char>>, suffix: Seq<char>) -> Seq<Seq<char>>
    decreases paths.len(),
{
    if paths.len() == 0 {
        Seq::empty()
    } else {
        mounts(paths.drop_last(), suffix) + seq!["-v"@, paths.last() + ":"@ + paths.last() + suffix]
    }
}

/// The settings of environment variables, in the given order.
pub open spec fn env_args(names: Seq<Seq<char>>, env: Map<Seq<char>, Seq<char>>) -> Seq<Seq<char>>
    decreases names.len(),
{
    if names.len() == 0 {
        Seq::empty()
    } else {
        env_args(names.drop_last(), env) + seq!["-e"@, names.last() + "="@ + env[names.last()]]
    }
}

/// Arguments that are never handed to Docker: anything that begins with one of these.
pub open spec fn dangerous_args() -> Seq<Seq<char>> {
    seq![
        "--privileged"@,
        "--pid=host"@,
        "--network=host"@,
        "--ipc=host"@,
        "--uts=host"@,
        "--cap-add"@,
        "--security-opt=seccomp=unconfined"@,
        "--security-opt=apparmor=unconfined"@,
        "--userns=host"@,
        "--device="@,
        "--volume=/"@,
        "-v=/etc"@,
        "-v=/proc"@,
        "-v=/sys"@,
        "-v=/"@,
    ]
}

/// Whether an argument is never handed to Docker.
pub open spec fn dangerous(arg: Seq<char>) -> bool {
    exists|i: int|
        0 <= i < dangerous_args().len() && (#[trigger] dangerous_args()[i]).is_prefix_of(arg)
}

/// The arguments that may be handed to Docker.
pub open spec fn safe_args(args: Seq<Seq<char>>) -> Seq<Seq<char>> {
    args.filter(|a: Seq<char>| !dangerous(a))
}

/// The arguments about the network.
pub open spec fn network_args(config: DockerConfig, limits: Option<ResourceLimits>) -> Seq<
    Seq<char>,
> {
    let allowed = match limits {
        Some(l) => l.network,
        None => !config.disable_network,
    };
    if allowed {
        Seq::empty()
    } else {
        seq!["--network=none"@]
    }
}

/// The arguments about memory.
pub open spec fn memory_args(config: DockerConfig, limits: Option<ResourceLimits>) -> Seq<
    Seq<char>,
> {
    let mem = match limits {
        Some(l) => match l.memory_bytes {
            Some(m) => Some(m),
            None => config.memory_limit,
        },
        None => config.memory_limit,
    };
    match mem {
        Some(m) => seq![
            "--memory="@ + decimal(m as nat),
            "--memory-swap="@ + decimal(m as nat),
        ],
        None => Seq::empty(),
    }
}

/// The arguments about CPU and processes.
pub open spec fn process_args(config: DockerConfig, limits: Option<ResourceLimits>) -> Seq<
    Seq<char>,
> {
    let cpu = match config.cpu_quota {
        Some(q) => seq!["--cpu-quota="@ + decimal(q as nat)],
        None => Seq::empty(),
    };
    let pids = match limits {
        Some(l) => match l.max_processes {
            Some(n) => seq!["--pids-limit="@ + decimal(n as nat)],
            None => Seq::empty(),
        },
        None => Seq::empty(),
    };
    cpu + pids
}

/// The arguments that keep a container contained whatever else is set.
pub open spec fn hardening_args(config: DockerConfig) -> Seq<Seq<char>> {
    (if config.read_only_rootfs {
        seq!["--read-only"@, "--tmpfs=/tmp:rw,noexec,nosuid,size=64m"@]
    } else {
        Seq::empty()
    }) + seq![
        "--cap-drop=ALL"@,
        "--security-opt=no-new-privileges"@,
        "--init"@,
        "--restart=no"@,
        "--ulimit=nofile=256:512"@,
        "--ulimit=nproc=64:128"@,
    ]
}

/// The arguments about paths that are mounted.
pub open spec fn path_args(limits: Option<ResourceLimits>) -> Seq<Seq<char>> {
    match limits {
        Some(l) => mounts(strs(l.read_only_paths@), ":ro"@) + mounts(
            strs(l.writable_paths@),
            Seq::empty(),
        ),
        None => Seq::empty(),
    }
}

/// The arguments about the working directory.
pub open spec fn directory_args(dir: Option<Seq<char>>) -> Seq<Seq<char>> {
    match dir {
        Some(d) => seq!["-w"@, d],
        None => Seq::empty(),
    }
}

/// The message about the first path of the limits that may not be mounted.
pub open spec fn limits_fault(limits: Option<ResourceLimits>, sensitive: Seq<Seq<char>>) -> Option<
    Seq<char>,
> {
    match limits {
        Some(l) => match mount_fault(strs(l.read_only_paths@), sensitive) {
            Some(e) => Some(e),
            None => mount_fault(strs(l.writable_paths@), sensitive),
        },
        None => None,
    }
}

/// The command line that creates a container for a command, with the environment variables in the
/// given order.
pub open spec fn create_args(
    config: DockerConfig,
    command: SandboxCommand,
    limits: Option<ResourceLimits>,
    names: Seq<Seq<char>>,
) -> Seq<Seq<char>> {
    seq!["create"@, "--label"@, SANDBOX_LABEL@] + network_args(config, limits) + memory_args(
        config,
        limits,
    ) + process_args(config, limits) + hardening_args(config) + env_args(
        names,
        table_texts(command.env@),
    ) + path_args(limits) + directory_args(opt_str(command.working_dir)) + safe_args(
        strs(config.extra_args@),
    ) + seq![
        image_for(
            command.kind@,
            table_texts(config.language_images@),
            config.default_image@,
        ),
    ] + inner_command(command.kind@)
}

/// A list of one string.
fn one(a: &str) -> (r: Vec<String>)
    ensures
        strs(r@) == seq![a@],
{
    let mut r = no_strings();
    add_to(&mut r, a);
    assert(strs(r@) =~= seq![a@]);
    r
}

/// A list of two strings.
fn two(a: &str, b: &str) -> (r: Vec<String>)
    ensures
        strs(r@) == seq![a@, b@],
{
    let mut r = one(a);
    add_to(&mut r, b);
    assert(strs(r@) =~= seq![a@, b@]);
    r
}

fn network_list(config: &DockerConfig, limits: Option<&ResourceLimits>) -> (r: Vec<String>)
    ensures
        strs(r@) == network_args(*config, own_limits(limits)),
{
    let allowed = match limits {
        Some(l) => l.network,
        None => !config.disable_network,
    };
    if allowed {
        no_strings()
    } else {
        one("--network=none")
    }
}

/// The limits behind a reference.
pub open spec fn own_limits(limits: Option<&ResourceLimits>) -> Option<ResourceLimits> {
    match limits {
        Some(l) => Some(*l),
        None => None,
    }
}

fn memory_list(config: &DockerConfig, limits: Option<&ResourceLimits>) -> (r: Vec<String>)
    ensures
        strs(r@) == memory_args(*config, own_limits(limits)),
{
    let mem: Option<u64> = match limits {
        Some(l) => match l.memory_bytes {
            Some(m) => Some(m),
            None => config.memory_limit,
        },
        None => config.memory_limit,
    };
    match mem {
        Some(m) => {
            let n = number(m);
            let a = concat("--memory=", n.as_str());
            let b = concat("--memory-swap=", n.as_str());
            two(a.as_str(), b.as_str())
        },
        None => no_strings(),
    }
}

fn process_list(config: &DockerConfig, limits: Option<&ResourceLimits>) -> (r: Vec<String>)
    ensures
        strs(r@) == process_args(*config, own_limits(limits)),
{
    let mut r = match config.cpu_quota {
        Some(q) => {
            let a = concat("--cpu-quota=", number(q).as_str());
            one(a.as_str())
        },
        None => no_strings(),
    };
    let ghost cpu = strs(r@);
    assert(cpu + Seq::<Seq<char>>::empty() =~= cpu);
    if let Some(l) = limits {
        if let Some(n) = l.max_processes {
            let a = concat("--pids-limit=", number(n as u64).as_str());
            extend(&mut r, one(a.as_str()));
        }
    }
    r
}

fn hardening_list(config: &DockerConfig) -> (r: Vec<String>)
    ensures
        strs(r@) == hardening_args(*config),
{
    let mut r = if config.read_only_rootfs {
        two("--read-only", "--tmpfs=/tmp:rw,noexec,nosuid,size=64m")
    } else {
        no_strings()
    };
    let mut fixed = two("--cap-drop=ALL", "--security-opt=no-new-privileges");
    add_to(&mut fixed, "--init");
    add_to(&mut fixed, "--restart=no");
    add_to(&mut fixed, "--ulimit=nofile=256:512");
    add_to(&mut fixed, "--ulimit=nproc=64:128");
    assert(strs(fixed@) =~= seq![
        "--cap-drop=ALL"@,
        "--security-opt=no-new-privileges"@,
        "--init"@,
        "--restart=no"@,
        "--ulimit=nofile=256:512"@,
        "--ulimit=nproc=64:128"@,
    ]);
    extend(&mut r, fixed);
    r
}

fn env_list(names: &Vec<String>, env: &Table<String>) -> (r: Vec<String>)
    requires
        forall|i: int| 0 <= i < names.len() ==> env@.contains_key((#[trigger] names@[i])@),
    ensures
        strs(r@) == env_args(strs(names@), table_texts(env@)),
{
    let ghost all = strs(names@);
    let mut r = no_strings();
    let mut i: usize = 0;
    assert(all.take(0) =~= Seq::<Seq<char>>::empty());
    while i < names.len()
        invariant
            forall|i: int| 0 <= i < names.len() ==> env@.contains_key((#[trigger] names@[i])@),
            all == strs(names@),
            i <= names.len(),
            strs(r@) == env_args(all.take(i as int), table_texts(env@)),
        decreases names.len() - i,
    {
        proof {
            let t = all.take(i + 1);
            assert(t.drop_last() =~= all.take(i as int));
            assert(t.last() == names@[i as int]@);
            assert(env@.contains_key(names@[i as int]@));
        }
        if let Some(v) = env.get(names[i].as_str()) {
            let mut a = concat(names[i].as_str(), "=");
            a.push_str(v.as_str());
            extend(&mut r, two("-e", a.as_str()));
        }
        i = i + 1;
    }
    assert(all.take(all.len() as int) =~= all);
    r
}

fn mount_list(paths: &Vec<String>, suffix: &str) -> (r: Vec<String>)
    ensures
        strs(r@) == mounts(strs(paths@), suffix@),
{
    let ghost all = strs(paths@);
    let mut r = no_strings();
    let mut i: usize = 0;
    assert(all.take(0) =~= Seq::<Seq<char>>::empty());
    while i < paths.len()
        invariant
            all == strs(paths@),
            i <= paths.len(),
            strs(r@) == mounts(all.take(i as int), suffix@),
        decreases paths.len() - i,
    {
        proof {
            let t = all.take(i + 1);
            assert(t.drop_last() =~= all.take(i as int));
            assert(t.last() == paths@[i as int]@);
        }
        let mut a = concat(paths[i].as_str(), ":");
        a.push_str(paths[i].as_str());
        a.push_str(suffix);
        extend(&mut r, two("-v", a.as_str()));
        i = i + 1;
    }
    assert(all.take(all.len() as int) =~= all);
    r
}

fn is_dangerous(arg: &str) -> (r: bool)
    ensures
        r == dangerous(arg@),
{
    let mut list = two("--privileged", "--pid=host");
    add_to(&mut list, "--network=host");
    add_to(&mut list, "--ipc=host");
    add_to(&mut list, "--uts=host");
    add_to(&mut list, "--cap-add");
    add_to(&mut list, "--security-opt=seccomp=unconfined");
    add_to(&mut list, "--security-opt=apparmor=unconfined");
    add_to(&mut list, "--userns=host");
    add_to(&mut list, "--device=");
    add_to(&mut list, "--volume=/");
    add_to(&mut list, "-v=/etc");
    add_to(&mut list, "-v=/proc");
    add_to(&mut list, "-v=/sys");
    add_to(&mut list, "-v=/");
    assert(strs(list@) =~= dangerous_args());
    let mut i: usize = 0;
    while i < list.len()
        invariant
            strs(list@) == dangerous_args(),
            i <= list.len(),
            forall|k: int| 0 <= k < i ==> !(#[trigger] dangerous_args()[k]).is_prefix_of(arg@),
        decreases list.len() - i,
    {
        assert(dangerous_args()[i as int] == list@[i as int]@);
        if starts_with(arg, list[i].as_str()) {
            return true;
        }
        i = i + 1;
    }
    false
}

fn safe_list(args: &Vec<String>) -> (r: Vec<String>)
    ensures
        strs(r@) == safe_args(strs(args@)),
{
    let ghost all = strs(args@);
    let ghost pred = |a: Seq<char>| !dangerous(a);
    let mut r = no_strings();
    let mut i: usize = 0;
    proof {
        reveal(Seq::filter);
        assert(all.take(0) =~= Seq::<Seq<char>>::empty());
    }
    while i < args.len()
        invariant
            all == strs(args@),
            pred == (|a: Seq<char>| !dangerous(a)),
            i <= args.len(),
            strs(r@) == all.take(i as int).filter(pred),
        decreases args.len() - i,
    {
        proof {
            reveal(Seq::filter);
            let t = all.take(i + 1);
            assert(t.drop_last() =~= all.take(i as int));
            assert(t.last() == args@[i as int]@);
        }
        if !is_dangerous(args[i].as_str()) {
            add_to(&mut r, args[i].as_str());
        }
        i = i + 1;
    }
    assert(all.take(all.len() as int) =~= all);
    r
}

/// The image that a command runs in.
pub fn select_image_for_command(
    command: &SandboxCommand,
    language_images: &Table<String>,
    default_image: &str,
) -> (r: String)
    ensures
        r@ == image_for(command.kind@, table_texts(language_images@), default_image@),
{
    match &command.kind {
        CommandKind::Code { language, code: _ } => match language_images.get(language.as_str()) {
            Some(i) => i.clone(),
            None => default_image.to_owned(),
        },
        _ => default_image.to_owned(),
    }
}

impl DockerSandbox {
    /// A sandbox with the given settings, in which nothing at or below the sensitive paths is
    /// mounted.
    pub fn new(config: DockerConfig, sensitive_paths: Vec<String>) -> (r: DockerSandbox)
        ensures
            r == (DockerSandbox { config, sensitive_paths }),
    {
        DockerSandbox { config, sensitive_paths }
    }

    /// The name of the sandbox.
    pub fn name(&self) -> (r: &'static str)
        ensures
            r@ == "docker"@,
    {
        "docker"
    }

    /// How strongly the sandbox isolates.
    pub fn isolation_level(&self) -> (r: IsolationLevel)
        ensures
            r == IsolationLevel::Container,
    {
        IsolationLevel::Container
    }

    /// The image that a command runs in.
    pub fn select_image(&self, command: &SandboxCommand) -> (r: String)
        ensures
            r@ == image_for(
                command.kind@,
                table_texts(self.config.language_images@),
                self.config.default_image@,
            ),
    {
        select_image_for_command(
            command,
            &self.config.language_images,
            self.config.default_image.as_str(),
        )
    }

    /// Whether the paths may be mounted, or which one may not and why.
    pub fn validate_mount_paths(&self, paths: &Vec<String>) -> (r: Result<(), String>)
        ensures
            match r {
                Ok(_) => mount_fault(strs(paths@), strs(self.sensitive_paths@)) is None,
                Err(e) => mount_fault(strs(paths@), strs(self.sensitive_paths@)) == Some(e@),
            },
    {
        let ghost all = strs(paths@);
        let ghost sens = strs(self.sensitive_paths@);
        let mut i: usize = 0;
        assert(all.subrange(0, all.len() as int) =~= all);
        while i < paths.len()
            invariant
                all == strs(paths@),
                sens == strs(self.sensitive_paths@),
                i <= paths.len(),
                mount_fault(all, sens) == mount_fault(
                    all.subrange(i as int, all.len() as int),
                    sens,
                ),
            decreases paths.len() - i,
        {
            let ghost rest = all.subrange(i as int, all.len() as int);
            let ghost p = paths@[i as int]@;
            assert(rest[0] == p);
            assert(rest.drop_first() =~= all.subrange(i + 1, all.len() as int));
            let mut k: usize = 0;
            assert(sens.subrange(0, sens.len() as int) =~= sens);
            while k < self.sensitive_paths.len()
                invariant
                    i < paths.len(),
                    sens == strs(self.sensitive_paths@),
                    p == paths@[i as int]@,
                    rest.len() > 0,
                    rest[0] == p,
                    mount_fault(all, sens) == mount_fault(rest, sens),
                    all == strs(paths@),
                    k <= self.sensitive_paths.len(),
                    touched(p, sens) == touched(p, sens.subrange(k as int, sens.len() as int)),
                decreases self.sensitive_paths.len() - k,
            {
                let ghost tail = sens.subrange(k as int, sens.len() as int);
                assert(tail[0] == self.sensitive_paths@[k as int]@);
                assert(tail.drop_first() =~= sens.subrange(k + 1, sens.len() as int));
                let s = self.sensitive_paths[k].as_str();
                let below = concat(s, "/");
                if same(paths[i].as_str(), s) || starts_with(paths[i].as_str(), below.as_str()) {
                    let mut m = concat("Mount path '", paths[i].as_str());
                    m.push_str("' accesses sensitive directory '");
                    m.push_str(s);
                    m.push_str("'");
                    return Err(m);
                }
                k = k + 1;
            }
            i = i + 1;
        }
        Ok(())
    }

    /// The command line within the container.
    pub fn build_inner_command(command: &SandboxCommand) -> (r: Vec<String>)
        ensures
            strs(r@) == inner_command(command.kind@),
    {
        match &command.kind {
            CommandKind::Shell(cmd) => {
                let mut r = two("sh", "-c");
                add_to(&mut r, cmd.as_str());
                assert(strs(r@) =~= seq!["sh"@, "-c"@, cmd@]);
                r
            },
            CommandKind::Program { program, args } => {
                let mut r = one(program.as_str());
                extend(&mut r, copy_strings(args));
                r
            },
            CommandKind::Code { language, code } => {
                let l = language.as_str();
                let mut r = if same(l, "python") || same(l, "python3") {
                    two("python3", "-c")
                } else if same(l, "node") || same(l, "javascript") || same(l, "js") {
                    two("node", "-e")
                } else if same(l, "ruby") {
                    two("ruby", "-e")
                } else if same(l, "perl") {
                    two("perl", "-e")
                } else if same(l, "php") {
                    two("php", "-r")
                } else {
                    two("sh", "-c")
                };
                let ghost pair = strs(r@);
                assert(pair == seq![interpreter(language@).0, interpreter(language@).1]);
                add_to(&mut r, code.as_str());
                assert(strs(r@) =~= seq![
                    interpreter(language@).0,
                    interpreter(language@).1,
                    code@,
                ]);
                r
            },
        }
    }

    /// The command line that creates a container for a command, or why it may not be created.
    pub fn build_docker_create_args(
        &self,
        command: &SandboxCommand,
        limits: Option<&ResourceLimits>,
    ) -> (r: Result<Vec<String>, SandboxError>)
        ensures
            match r {
                Ok(args) => limits_fault(own_limits(limits), strs(self.sensitive_paths@)) is None
                    && exists|names: Seq<Seq<char>>| #[trigger]
                    increasing(names) && names.to_set() == command.env@.dom() && strs(args@)
                        == create_args(self.config, *command, own_limits(limits), names),
                Err(e) => e matches SandboxError::PermissionDenied(m) && limits_fault(
                    own_limits(limits),
                    strs(self.sensitive_paths@),
                ) == Some(m@),
            },
    {
        if let Some(l) = limits {
            match self.validate_mount_paths(&l.read_only_paths) {
                Ok(_) => {},
                Err(m) => {
                    return Err(SandboxError::PermissionDenied(m));
                },
            }
            match self.validate_mount_paths(&l.writable_paths) {
                Ok(_) => {},
                Err(m) => {
                    return Err(SandboxError::PermissionDenied(m));
                },
            }
        }
        let mut args = two("create", "--label");
        add_to(&mut args, SANDBOX_LABEL);
        assert(strs(args@) =~= seq!["create"@, "--label"@, SANDBOX_LABEL@]);
        extend(&mut args, network_list(&self.config, limits));
        extend(&mut args, memory_list(&self.config, limits));
        extend(&mut args, process_list(&self.config, limits));
        extend(&mut args, hardening_list(&self.config));
        let names = command.env.sorted_keys();
        assert forall|i: int| 0 <= i < names.len() implies command.env@.contains_key(
            (#[trigger] names@[i])@,
        ) by {
            assert(strs(names@)[i] == names@[i]@);
            assert(strs(names@).to_set().contains(names@[i]@));
        }
        extend(&mut args, env_list(&names, &command.env));
        let paths = match limits {
            Some(l) => {
                let mut p = mount_list(&l.read_only_paths, ":ro");
                let none = String::new();
                extend(&mut p, mount_list(&l.writable_paths, none.as_str()));
                p
            },
            None => no_strings(),
        };
        extend(&mut args, paths);
        let dir = match &command.working_dir {
            Some(d) => two("-w", d.as_str()),
            None => no_strings(),
        };
        extend(&mut args, dir);
        extend(&mut args, safe_list(&self.config.extra_args));
        let image = self.select_image(command);
        extend(&mut args, one(image.as_str()));
        extend(&mut args, DockerSandbox::build_inner_command(command));
        Ok(args)
    }
}

// ── Running a container ─────────────────────────────────────────────────────────────────────

/// The time limit of a run in milliseconds: that of the limits, else that of the command.
pub open spec fn time_limit(command_ms: u64, limits: Option<ResourceLimits>) -> int {
    match limits {
        Some(l) => match l.cpu_time_secs {
            Some(s) => s * 1000,
            None => command_ms as int,
        },
        None => command_ms as int,
    }
}

/// The time limit of a run in milliseconds; the longest there is where the limit is longer.
pub fn run_time_limit(command: &SandboxCommand, limits: Option<&ResourceLimits>) -> (r: u64)
    ensures
        r == if time_limit(command.timeout_ms, own_limits(limits)) <= u64::MAX {
            time_limit(command.timeout_ms, own_limits(limits))
        } else {
            u64::MAX as int
        },
{
    match limits {
        Some(l) => match l.cpu_time_secs {
            Some(s) => {
                if s <= 18_446_744_073_709_551 {
                    s * 1000
                } else {
                    u64::MAX
                }
            },
            None => command.timeout_ms,
        },
        None => command.timeout_ms,
    }
}

/// The error where Docker cannot be used.
pub fn docker_unavailable() -> (r: SandboxError)
    ensures
        r matches SandboxError::Unavailable(m) && m@ == "Docker is not available"@,
{
    SandboxError::Unavailable("Docker is not available".to_owned())
}

/// The identifier of the container that was created, by what Docker printed.
pub fn created_container(stdout: &str, stderr: &str) -> (r: Result<String, SandboxError>)
    ensures
        match r {
            Ok(id) => id@ == trim(stdout@) && id@.len() > 0,
            Err(e) => trim(stdout@).len() == 0 && (e matches SandboxError::StartFailed(m) && m@
                == "Failed to get container ID: "@ + stderr@),
        },
{
    let id = trimmed(stdout);
    if id.as_str().is_empty() {
        Err(SandboxError::StartFailed(concat("Failed to get container ID: ", stderr)))
    } else {
        Ok(id)
    }
}

/// The command line that starts a container and waits for it.
pub fn start_args(container_id: &str, has_stdin: bool) -> (r: Vec<String>)
    ensures
        strs(r@) == seq![
            "start"@,
            if has_stdin {
                "-ai"@
            } else {
                "-a"@
            },
            container_id@,
        ],
{
    let mut r = if has_stdin {
        two("start", "-ai")
    } else {
        two("start", "-a")
    };
    let ghost pair = strs(r@);
    add_to(&mut r, container_id);
    assert(strs(r@) =~= seq![pair[0], pair[1], container_id@]);
    r
}

/// An output that is cut to a number of bytes, between characters, and marked where it was.
pub open spec fn clipped(text: Seq<char>, max: Option<u64>) -> Seq<char> {
    match max {
        Some(m) => if text_bytes(text) > m {
            text.take(fitting(text, m as int) as int) + "\n... [output truncated]"@
        } else {
            text
        },
        None => text,
    }
}

fn clip(text: &str, max: Option<u64>) -> (r: String)
    ensures
        r@ == clipped(text@, max),
{
    match max {
        Some(m) => {
            let (front, cut) = fit_bytes(text, m);
            if cut {
                concat(front.as_str(), "\n... [output truncated]")
            } else {
                text.to_owned()
            }
        },
        None => text.to_owned(),
    }
}

/// The result of a run that came to an end; without an exit code it is -1.
pub fn finished_run(
    exit_code: Option<i32>,
    stdout: &str,
    stderr: &str,
    duration_ms: u64,
    limits: Option<&ResourceLimits>,
) -> (r: ExecutionResult)
    ensures
        r.exit_code == match exit_code {
            Some(c) => c,
            None => -1i32,
        },
        ({
            let max = match limits {
                Some(l) => l.max_output_bytes,
                None => None,
            };
            r.stdout@ == clipped(stdout@, max) && r.stderr@ == clipped(stderr@, max)
        }),
        r.duration_ms == duration_ms,
        r.sandbox_type@ == "docker"@,
        !r.timed_out,
{
    let max: Option<u64> = match limits {
        Some(l) => l.max_output_bytes,
        None => None,
    };
    ExecutionResult {
        exit_code: match exit_code {
            Some(c) => c,
            None => -1,
        },
        stdout: clip(stdout, max),
        stderr: clip(stderr, max),
        duration_ms,
        sandbox_type: "docker".to_owned(),
        timed_out: false,
    }
}

/// The result of a run that its time limit ended.
pub fn timed_out_run(limit_ms: u64, duration_ms: u64) -> (r: ExecutionResult)
    ensures
        r.exit_code == -1,
        r.stdout@.len() == 0,
        r.stderr@ == "Docker execution timed out after "@ + decimal((limit_ms / 1000) as nat)
            + "s"@,
        r.duration_ms == duration_ms,
        r.sandbox_type@ == "docker"@,
        r.timed_out,
{
    let mut stderr = concat("Docker execution timed out after ", number(limit_ms / 1000).as_str());
    stderr.push_str("s");
    ExecutionResult {
        exit_code: -1,
        stdout: String::new(),
        stderr,
        duration_ms,
        sandbox_type: "docker".to_owned(),
        timed_out: true,
    }
}

/// The command line that lists all containers of the sandbox.
pub fn list_args() -> (r: Vec<String>)
    ensures
        strs(r@) == seq!["ps"@, "-aq"@, "--filter"@, "label="@ + SANDBOX_LABEL@],
{
    let mut r = two("ps", "-aq");
    add_to(&mut r, "--filter");
    let filter = concat("label=", SANDBOX_LABEL);
    add_to(&mut r, filter.as_str());
    assert(strs(r@) =~= seq!["ps"@, "-aq"@, "--filter"@, "label="@ + SANDBOX_LABEL@]);
    r
}

/// The containers that Docker listed.
pub fn listed_containers(stdout: &str) -> (r: Vec<String>)
    ensures
        strs(r@) == if trim(stdout@).len() == 0 {
            Seq::empty()
        } else {
            lines(stdout@)
        },
{
    if trimmed(stdout).as_str().is_empty() {
        no_strings()
    } else {
        lines_of(stdout)
    }
}

/// The command line that removes a container.
pub fn remove_args(container_id: &str) -> (r: Vec<String>)
    ensures
        strs(r@) == seq!["rm"@, "-f"@, container_id@],
{
    let mut r = two("rm", "-f");
    add_to(&mut r, container_id);
    assert(strs(r@) =~= seq!["rm"@, "-f"@, container_id@]);
    r
}

// ── Laws ────────────────────────────────────────────────────────────────────────────────────

/// None of the further arguments that reach Docker is a dangerous one, and all others do.
pub proof fn law_dangerous_arguments_are_dropped(args: Seq<Seq<char>>, a: Seq<char>)
    ensures
        safe_args(args).contains(a) <==> args.contains(a) && !dangerous(a),
{
    let pred = |x: Seq<char>| !dangerous(x);
    if safe_args(args).contains(a) {
        args.lemma_filter_contains_rev(pred, a);
        let i = choose|i: int| 0 <= i < safe_args(args).len() && safe_args(args)[i] == a;
        args.lemma_filter_pred(pred, i);
    }
    if args.contains(a) && !dangerous(a) {
        let i = choose|i: int| 0 <= i < args.len() && args[i] == a;
        args.lemma_filter_contains(pred, i);
    }
}

/// Every container is created without capabilities, without new privileges, and without the
/// network unless it is asked for.
pub proof fn law_containers_are_hardened(
    config: DockerConfig,
    command: SandboxCommand,
    limits: Option<ResourceLimits>,
    names: Seq<Seq<char>>,
)
    ensures
        ({
            let args = create_args(config, command, limits, names);
            &&& args.contains("--cap-drop=ALL"@)
            &&& args.contains("--security-opt=no-new-privileges"@)
            &&& config.read_only_rootfs ==> args.contains("--read-only"@)
            &&& (limits matches Some(l) && !l.network) || (limits is None
                && config.disable_network) ==> args.contains("--network=none"@)
        }),
{
    let args = create_args(config, command, limits, names);
    let a = seq!["create"@, "--label"@, SANDBOX_LABEL@];
    let n = network_args(config, limits);
    let b = a + n + memory_args(config, limits) + process_args(config, limits);
    let h = hardening_args(config);
    let k = b.len() as int + h.len() - 6;
    assert(h[h.len() - 6] == "--cap-drop=ALL"@);
    assert(h[h.len() - 5] == "--security-opt=no-new-privileges"@);
    assert(args[k] == "--cap-drop=ALL"@);
    assert(args[k + 1] == "--security-opt=no-new-privileges"@);
    if config.read_only_rootfs {
        assert(h[0] == "--read-only"@);
        assert(args[b.len() as int] == "--read-only"@);
    }
    if n.len() > 0 {
        assert(args[3] == "--network=none"@);
    }
}

/// A path below a sensitive directory is refused wherever it stands in the list.
pub proof fn law_sensitive_mounts_are_refused(
    paths: Seq<Seq<char>>,
    sensitive: Seq<Seq<char>>,
    i: int,
    j: int,
)
    requires
        0 <= i < paths.len(),
        0 <= j < sensitive.len(),
        touches(paths[i], sensitive[j]),
    ensures
        mount_fault(paths, sensitive) is Some,
    decreases paths.len(),
{
    if i == 0 {
        lemma_touched(paths[0], sensitive, j);
    } else if touched(paths[0], sensitive) is None {
        law_sensitive_mounts_are_refused(paths.drop_first(), sensitive, i - 1, j);
    }
}

proof fn lemma_touched(path: Seq<char>, sensitive: Seq<Seq<char>>, j: int)
    requires
        0 <= j < sensitive.len(),
        touches(path, sensitive[j]),
    ensures
        touched(path, sensitive) is Some,
    decreases sensitive.len(),
{
    if j > 0 && !touches(path, sensitive[0]) {
        lemma_touched(path, sensitive.drop_first(), j - 1);
    }
}

/// The command line of a container ends with its image and with the command that it runs. The image is
/// that of the language of the code, where there is one, else the default. A line for the shell is
/// handed to the shell as it is, a program gets its arguments in order, and code is the last argument
/// of the interpreter of its language.
pub proof fn law_container_runs_the_command(
    config: DockerConfig,
    command: SandboxCommand,
    limits: Option<ResourceLimits>,
    names: Seq<Seq<char>>,
)
    ensures
        ({
            let args = create_args(config, command, limits, names);
            let n = args.len() as int;
            let images = table_texts(config.language_images@);
            match command.kind@ {
                KindView::Shell(c) => n >= 4 && args[n - 4] == config.default_image@ && args[n - 3]
                    == "sh"@ && args[n - 2] == "-c"@ && args[n - 1] == c,
                KindView::Program(p, a) => n >= a.len() + 2 && args[n - a.len() - 2]
                    == config.default_image@ && args[n - a.len() - 1] == p && args.subrange(
                    n - a.len(),
                    n,
                ) == a,
                KindView::Code(language, code) => n >= 4 && args[n - 4] == (
                if images.contains_key(language) {
                    images[language]
                } else {
                    config.default_image@
                }) && args[n - 3] == interpreter(language).0 && args[n - 2]
                    == interpreter(language).1 && args[n - 1] == code,
            }
        }),
{
    let args = create_args(config, command, limits, names);
    if let KindView::Program(p, a) = command.kind@ {
        let n = args.len() as int;
        assert(args.subrange(n - a.len(), n) =~= a);
    }
}

/// Every path is mounted at its own place, in order, and nothing else is.
pub proof fn law_every_path_is_mounted(paths: Seq<Seq<char>>, suffix: Seq<char>, i: int)
    ensures
        mounts(paths, suffix).len() == 2 * paths.len(),
        0 <= i < paths.len() ==> mounts(paths, suffix)[2 * i] == "-v"@ && mounts(paths, suffix)[2 * i
            + 1] == paths[i] + ":"@ + paths[i] + suffix,
    decreases paths.len(),
{
    if paths.len() > 0 {
        law_every_path_is_mounted(paths.drop_last(), suffix, i);
    }
}

/// Every variable of the environment is handed to the container with its value, in order, and no other
/// is.
pub proof fn law_every_variable_is_set(
    names: Seq<Seq<char>>,
    env: Map<Seq<char>, Seq<char>>,
    i: int,
)
    ensures
        env_args(names, env).len() == 2 * names.len(),
        0 <= i < names.len() ==> env_args(names, env)[2 * i] == "-e"@ && env_args(names, env)[2 * i
            + 1] == names[i] + "="@ + env[names[i]],
    decreases names.len(),
{
    if names.len() > 0 {
        law_every_variable_is_set(names.drop_last(), env, i);
    }
}

/// A container is created with the memory, the processor time and the number of processes that it is
/// given; the memory of the limits counts before that of the configuration. It has the mounts of the
/// limits, the settings of the environment and the working directory of the command.
pub proof fn law_container_has_its_limits(
    config: DockerConfig,
    command: SandboxCommand,
    limits: Option<ResourceLimits>,
    names: Seq<Seq<char>>,
    i: int,
)
    ensures
        ({
            let args = create_args(config, command, limits, names);
            &&& limits is Some && limits->0.memory_bytes is Some ==> args.contains(
                "--memory="@ + decimal(limits->0.memory_bytes->0 as nat),
            )
            &&& (limits is None || limits->0.memory_bytes is None) && config.memory_limit is Some
                ==> args.contains("--memory="@ + decimal(config.memory_limit->0 as nat))
            &&& config.cpu_quota is Some ==> args.contains(
                "--cpu-quota="@ + decimal(config.cpu_quota->0 as nat),
            )
            &&& limits is Some && limits->0.max_processes is Some ==> args.contains(
                "--pids-limit="@ + decimal(limits->0.max_processes->0 as nat),
            )
            &&& limits is Some && 0 <= i < limits->0.read_only_paths@.len() ==> args.contains(
                limits->0.read_only_paths@[i]@ + ":"@ + limits->0.read_only_paths@[i]@ + ":ro"@,
            )
            &&& limits is Some && 0 <= i < limits->0.writable_paths@.len() ==> args.contains(
                limits->0.writable_paths@[i]@ + ":"@ + limits->0.writable_paths@[i]@,
            )
            &&& 0 <= i < names.len() ==> args.contains(
                names[i] + "="@ + table_texts(command.env@)[names[i]],
            )
            &&& command.working_dir is Some ==> args.contains(command.working_dir->0@)
            &&& 0 <= i < config.extra_args@.len() && !dangerous(config.extra_args@[i]@)
                ==> args.contains(config.extra_args@[i]@)
        }),
{
    let m = memory_args(config, limits);
    let p = process_args(config, limits);
    let e = env_args(names, table_texts(command.env@));
    let v = path_args(limits);
    let d = directory_args(opt_str(command.working_dir));
    let x = safe_args(strs(config.extra_args@));
    let args = create_args(config, command, limits, names);
    assert forall|y: Seq<char>|
        m.contains(y) || p.contains(y) || e.contains(y) || v.contains(y) || d.contains(y)
            || x.contains(y) implies #[trigger] args.contains(y) by {
        lemma_args_hold(config, command, limits, names, y);
    }
    if m.len() > 0 {
        assert(m.contains(m[0]));
    }
    if let Some(q) = config.cpu_quota {
        assert(p[0] == "--cpu-quota="@ + decimal(q as nat));
        assert(p.contains(p[0]));
    }
    if let Some(l) = limits {
        if let Some(n) = l.max_processes {
            assert(p.last() == "--pids-limit="@ + decimal(n as nat));
            assert(p.contains(p.last()));
        }
        let ro = mounts(strs(l.read_only_paths@), ":ro"@);
        let rw = mounts(strs(l.writable_paths@), Seq::empty());
        law_every_path_is_mounted(strs(l.read_only_paths@), ":ro"@, i);
        law_every_path_is_mounted(strs(l.writable_paths@), Seq::empty(), i);
        if 0 <= i < l.read_only_paths@.len() {
            assert(ro.contains(ro[2 * i + 1]));
            lemma_either_holds(ro, rw, ro[2 * i + 1]);
        }
        if 0 <= i < l.writable_paths@.len() {
            let w = l.writable_paths@[i]@;
            assert(w + ":"@ + w + Seq::<char>::empty() =~= w + ":"@ + w);
            assert(rw.contains(rw[2 * i + 1]));
            lemma_either_holds(ro, rw, rw[2 * i + 1]);
        }
    }
    law_every_variable_is_set(names, table_texts(command.env@), i);
    if 0 <= i < names.len() {
        assert(e.contains(e[2 * i + 1]));
    }
    if command.working_dir is Some {
        assert(d.contains(d[1]));
    }
    if 0 <= i < config.extra_args@.len() && !dangerous(config.extra_args@[i]@) {
        let given = strs(config.extra_args@);
        assert(given[i] == config.extra_args@[i]@);
        assert(given.contains(given[i]));
        law_dangerous_arguments_are_dropped(given, given[i]);
    }
}

proof fn lemma_either_holds(a: Seq<Seq<char>>, b: Seq<Seq<char>>, x: Seq<char>)
    ensures
        a.contains(x) || b.contains(x) ==> (a + b).contains(x),
{
    if a.contains(x) {
        assert((a + b)[a.index_of(x)] == x);
    }
    if b.contains(x) {
        assert((a + b)[a.len() + b.index_of(x)] == x);
    }
}

proof fn lemma_args_hold(
    config: DockerConfig,
    command: SandboxCommand,
    limits: Option<ResourceLimits>,
    names: Seq<Seq<char>>,
    x: Seq<char>,
)
    requires
        memory_args(config, limits).contains(x) || process_args(config, limits).contains(x)
            || env_args(names, table_texts(command.env@)).contains(x) || path_args(limits).contains(x)
            || directory_args(opt_str(command.working_dir)).contains(x) || safe_args(
            strs(config.extra_args@),
        ).contains(x),
    ensures
        create_args(config, command, limits, names).contains(x),
{
    let a = seq!["create"@, "--label"@, SANDBOX_LABEL@] + network_args(config, limits);
    let b = a + memory_args(config, limits);
    let c = b + process_args(config, limits);
    let d = c + hardening_args(config);
    let e = d + env_args(names, table_texts(command.env@));
    let f = e + path_args(limits);
    let g = f + directory_args(opt_str(command.working_dir));
    let h = g + safe_args(strs(config.extra_args@));
    let i = h + seq![
        image_for(command.kind@, table_texts(config.language_images@), config.default_image@),
    ];
    lemma_either_holds(a, memory_args(config, limits), x);
    lemma_either_holds(b, process_args(config, limits), x);
    lemma_either_holds(c, hardening_args(config), x);
    lemma_either_holds(d, env_args(names, table_texts(command.env@)), x);
    lemma_either_holds(e, path_args(limits), x);
    lemma_either_holds(f, directory_args(opt_str(command.working_dir)), x);
    lemma_either_holds(g, safe_args(strs(config.extra_args@)), x);
    lemma_either_holds(
        h,
        seq![
            image_for(command.kind@, table_texts(config.language_images@), config.default_image@),
        ],
        x,
    );
    lemma_either_holds(i, inner_command(command.kind@), x);
}

/// Paths that touch no sensitive directory are not refused.
pub proof fn law_other_mounts_are_allowed(paths: Seq<Seq<char>>, sensitive: Seq<Seq<char>>)
    requires
        forall|i: int, j: int|
            0 <= i < paths.len() && 0 <= j < sensitive.len() ==> #[trigger] paths[i]
                != #[trigger] sensitive[j] && !(sensitive[j] + "/"@).is_prefix_of(paths[i]),
    ensures
        mount_fault(paths, sensitive) is None,
    decreases paths.len(),
{
    if paths.len() > 0 {
        assert forall|j: int| 0 <= j < sensitive.len() implies !touches(
            paths[0],
            #[trigger] sensitive[j],
        ) by {
            assert(paths[0] != sensitive[j]);
        }
        lemma_untouched(paths[0], sensitive);
        let t = paths.drop_first();
        assert forall|i: int, j: int|
            0 <= i < t.len() && 0 <= j < sensitive.len() implies #[trigger] t[i]
            != #[trigger] sensitive[j] && !(sensitive[j] + "/"@).is_prefix_of(t[i]) by {
            assert(t[i] == paths[i + 1]);
        }
        law_other_mounts_are_allowed(t, sensitive);
    }
}

proof fn lemma_untouched(path: Seq<char>, sensitive: Seq<Seq<char>>)
    requires
        forall|j: int| 0 <= j < sensitive.len() ==> !touches(path, #[trigger] sensitive[j]),
    ensures
        touched(path, sensitive) is None,
    decreases sensitive.len(),
{
    if sensitive.len() > 0 {
        let t = sensitive.drop_first();
        assert(!touches(path, sensitive[0]));
        assert forall|j: int| 0 <= j < t.len() implies !touches(path, #[trigger] t[j]) by {
            assert(t[j] == sensitive[j + 1]);
        }
        lemma_untouched(path, t);
    }
}

/// An output within its limit is whole. One beyond it is cut to as many characters as the limit has
/// room for, and marked.
pub proof fn law_output_is_cut_at_its_limit(text: Seq<char>, max: u64)
    ensures
        text_bytes(text) <= max ==> clipped(text, Some(max)) == text,
        text_bytes(text) > max ==> exists|n: int|
            0 <= n < text.len() && text_bytes(#[trigger] text.take(n)) <= max && text_bytes(
                text.take(n + 1),
            ) > max && clipped(text, Some(max)) == text.take(n) + "\n... [output truncated]"@,
        clipped(text, None) == text,
{
    law_as_much_as_fits(text, max as int);
    if text_bytes(text) > max {
        let n = fitting(text, max as int) as int;
        assert(text.take(text.len() as int) =~= text);
        assert(text_bytes(text.take(n)) <= max);
    }
}

/// No argument that lifts the limits of a container is handed on, with whatever it ends.
pub proof fn law_arguments_that_lift_limits_are_dangerous(arg: Seq<char>)
    ensures
        "--privileged"@.is_prefix_of(arg) || "--pid=host"@.is_prefix_of(arg)
            || "--network=host"@.is_prefix_of(arg) || "--ipc=host"@.is_prefix_of(arg)
            || "--uts=host"@.is_prefix_of(arg) || "--cap-add"@.is_prefix_of(arg)
            || "--security-opt=seccomp=unconfined"@.is_prefix_of(arg)
            || "--security-opt=apparmor=unconfined"@.is_prefix_of(arg)
            || "--userns=host"@.is_prefix_of(arg) || "--device="@.is_prefix_of(arg)
            || "--volume=/"@.is_prefix_of(arg) || "-v=/"@.is_prefix_of(arg) ==> dangerous(arg),
{
    let d = dangerous_args();
    assert(d[0] == "--privileged"@);
    assert(d[1] == "--pid=host"@);
    assert(d[2] == "--network=host"@);
    assert(d[3] == "--ipc=host"@);
    assert(d[4] == "--uts=host"@);
    assert(d[5] == "--cap-add"@);
    assert(d[6] == "--security-opt=seccomp=unconfined"@);
    assert(d[7] == "--security-opt=apparmor=unconfined"@);
    assert(d[8] == "--userns=host"@);
    assert(d[9] == "--device="@);
    assert(d[10] == "--volume=/"@);
    assert(d[14] == "-v=/"@);
}

/// The time limit of a run is that of the limits, given in seconds, and else that of the command.
pub proof fn law_time_limit_of_a_run(command_ms: u64, limits: Option<ResourceLimits>)
    ensures
        limits is Some && limits->0.cpu_time_secs is Some ==> time_limit(command_ms, limits)
            == limits->0.cpu_time_secs->0 * 1000,
        limits is None || limits->0.cpu_time_secs is None ==> time_limit(command_ms, limits)
            == command_ms,
{
}

} // verus!
