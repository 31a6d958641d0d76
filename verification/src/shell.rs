//! Which program runs a shell command on a platform.

use vstd::prelude::*;
use crate::text::{same, strs};

verus! {

/// What the platform offers for running commands.
pub struct Platform {
    /// Whether this is Windows.
    pub windows: bool,
    /// Whether PowerShell 7 is installed.
    pub has_pwsh: bool,
    /// Where Git Bash is installed on Windows.
    pub git_bash: Option<String>,
}

/// A program with its arguments.
pub struct ShellCommand {
    pub program: String,
    pub args: Vec<String>,
}

/// The program for a preferred shell.
pub open spec fn shell_program(shell: Option<Seq<char>>, p: Platform) -> Seq<char> {
    if shell == Some("powershell"@) {
        if p.has_pwsh {
            "pwsh"@
        } else if p.windows {
            "powershell"@
        } else {
            "sh"@
        }
    } else if p.windows {
        match p.git_bash {
            Some(b) => b@,
            None => "cmd"@,
        }
    } else {
        "bash"@
    }
}

/// The arguments that make the program run a command.
pub open spec fn shell_args(shell: Option<Seq<char>>, p: Platform, command: Seq<char>) -> Seq<
    Seq<char>,
> {
    if shell == Some("powershell"@) {
        if p.has_pwsh || p.windows {
            seq!["-NoProfile"@, "-NonInteractive"@, "-Command"@, command]
        } else {
            seq!["-c"@, command]
        }
    } else if p.windows && p.git_bash is None {
        seq!["/C"@, command]
    } else {
        seq!["-c"@, command]
    }
}

/// A list of two strings.
fn pair(a: &str, b: &str) -> (r: Vec<String>)
    ensures
        strs(r@) == seq![a@, b@],
{
    let mut r: Vec<String> = Vec::new();
    r.push(a.to_owned());
    r.push(b.to_owned());
    assert(strs(r@) =~= seq![a@, b@]);
    r
}

/// How a command is run with a preferred shell.
pub fn build_shell_command(command: &str, shell: Option<&str>, platform: &Platform) -> (r:
    ShellCommand)
    ensures
        ({
            let s = match shell {
                Some(t) => Some(t@),
                None => None,
            };
            &&& r.program@ == shell_program(s, *platform)
            &&& strs(r.args@) == shell_args(s, *platform, command@)
        }),
{
    let powershell = match shell {
        Some(t) => same(t, "powershell"),
        None => false,
    };
    if powershell {
        if platform.has_pwsh || platform.windows {
            let program = if platform.has_pwsh {
                "pwsh".to_owned()
            } else {
                "powershell".to_owned()
            };
            let mut args: Vec<String> = Vec::new();
            args.push("-NoProfile".to_owned());
            args.push("-NonInteractive".to_owned());
            args.push("-Command".to_owned());
            args.push(command.to_owned());
            assert(strs(args@) =~= seq!["-NoProfile"@, "-NonInteractive"@, "-Command"@, command@]);
            ShellCommand { program, args }
        } else {
            ShellCommand { program: "sh".to_owned(), args: pair("-c", command) }
        }
    } else if platform.windows {
        match &platform.git_bash {
            Some(b) => ShellCommand { program: b.clone(), args: pair("-c", command) },
            None => ShellCommand { program: "cmd".to_owned(), args: pair("/C", command) },
        }
    } else {
        ShellCommand { program: "bash".to_owned(), args: pair("-c", command) }
    }
}

/// A command is handed to its shell whole, as the last argument, behind the flag with which that shell
/// takes a command.
pub proof fn law_command_is_the_last_argument(
    shell: Option<Seq<char>>,
    p: Platform,
    command: Seq<char>,
)
    ensures
        shell_args(shell, p, command).len() >= 2,
        shell_args(shell, p, command).last() == command,
        shell_program(shell, p) == "bash"@ || shell_program(shell, p) == "sh"@ ==> shell_args(
            shell,
            p,
            command,
        )[0] == "-c"@ || p.windows,
        !p.windows && shell != Some("powershell"@) ==> shell_program(shell, p) == "bash"@,
{
    reveal_strlit("bash");
    reveal_strlit("sh");
    reveal_strlit("pwsh");
    reveal_strlit("powershell");
    assert("bash"@.len() == 4 && "sh"@.len() == 2 && "powershell"@.len() == 10);
    assert("pwsh"@.len() == 4 && "pwsh"@[0] != "bash"@[0]);
}

} // verus!
