use echo_agent::json::{parse, Json};
use echo_agent::skill_registry::SkillRegistry;
use echo_agent::skill_tools::{
    arguments_given, check_resource_inside, check_script_inside, check_size,
    format_execution_result, resolve_interpreter, resolve_powershell, resolve_python,
    resolve_shell, resolve_typescript, resource_directory, resource_request, resource_result,
    script_arguments, script_directory, script_request, step_failed, unresolved, Interpreters,
    Invocation, StepFailure,
};
use echo_agent::skills::SkillDescriptor;
use echo_agent::table::Table;
use echo_agent::tools::ToolCallParams;

fn machine() -> Interpreters {
    Interpreters {
        windows: false,
        python: true,
        python3: true,
        bun: false,
        deno: false,
        wsl: false,
        pwsh: false,
        git_bash: None,
    }
}

fn params(text: &str) -> ToolCallParams {
    ToolCallParams::from_value(&parse(text).unwrap())
}

fn locked_registry(allowed: &str) -> SkillRegistry {
    let mut registry = SkillRegistry::new();
    registry.register_descriptor(SkillDescriptor {
        name: "locked-skill".into(),
        description: "desc".into(),
        location: "/skills/locked-skill/SKILL.md".into(),
        license: None,
        compatibility: None,
        metadata: Table::new(),
        allowed_tools: vec![allowed.into()],
        shell: None,
        paths: vec![],
        triggers: vec![],
        hooks: None,
        sandbox: None,
        depends_on: vec![],
    });
    registry.mark_activated("locked-skill");
    registry
}

#[test]
fn test_resolve_python() {
    let inv = resolve_python(&machine());
    assert!(
        inv.program == "python3" || inv.program == "python" || inv.program == "py",
        "unexpected python program: {}",
        inv.program
    );
}

#[test]
fn test_resolve_typescript() {
    let inv = resolve_typescript(&machine());
    assert!(
        inv.program == "bun" || inv.program == "deno" || inv.program == "npx",
        "unexpected ts program: {}",
        inv.program
    );
}

#[test]
fn test_resolve_shell() {
    let inv = resolve_shell(&machine());
    if machine().windows {
        assert!(
            inv.program.contains("bash")
                || inv.program == "wsl"
                || inv.program == "pwsh"
                || inv.program == "powershell",
            "unexpected shell program: {}",
            inv.program
        );
    } else {
        assert_eq!(inv.program, "bash");
    }
}

#[test]
fn test_resolve_powershell() {
    let inv = resolve_powershell(&machine());
    assert!(
        inv.program == "pwsh" || inv.program == "powershell" || inv.program == "sh",
        "unexpected ps program: {}",
        inv.program
    );
}

#[test]
fn test_resolve_interpreter_extensions() {
    assert_eq!(resolve_interpreter("test.js", &machine()).program, "node");
    assert_eq!(resolve_interpreter("test.rb", &machine()).program, "ruby");
    assert_eq!(resolve_interpreter("test.pl", &machine()).program, "perl");
    assert_eq!(resolve_interpreter("test.php", &machine()).program, "php");
    assert_eq!(resolve_interpreter("test.R", &machine()).program, "Rscript");
}

#[test]
fn test_invocation_no_longer_has_shell_prefix() {
    let inv = Invocation::simple("python3");
    assert_eq!(inv.program, "python3");
    assert!(inv.prefix_args.is_empty());
}

#[test]
fn test_shlex_split_simple() {
    let result = script_arguments(
        &Invocation::simple("sh"),
        "run.sh",
        "--input data.csv --output result.json",
    );
    assert_eq!(
        result.ok(),
        Some(vec![
            "run.sh".to_string(),
            "--input".to_string(),
            "data.csv".to_string(),
            "--output".to_string(),
            "result.json".to_string(),
        ])
    );
}

#[test]
fn test_shlex_split_quotes() {
    let result = script_arguments(
        &Invocation::simple("sh"),
        "run.sh",
        r#"--name "hello world" --verbose"#,
    );
    assert_eq!(
        result.ok(),
        Some(vec![
            "run.sh".to_string(),
            "--name".to_string(),
            "hello world".to_string(),
            "--verbose".to_string(),
        ])
    );
}

#[test]
fn test_shlex_split_empty() {
    let sh = Invocation::simple("sh");
    assert_eq!(script_arguments(&sh, "run.sh", "").ok(), Some(vec!["run.sh".to_string()]));
    assert_eq!(script_arguments(&sh, "run.sh", "   ").ok(), Some(vec!["run.sh".to_string()]));
}

#[test]
fn test_shlex_split_malformed() {
    let sh = Invocation::simple("sh");
    assert!(script_arguments(&sh, "run.sh", r#"--name "unterminated"#).is_err());
    assert!(arguments_given(&sh, "run.sh", None).is_err());
}

#[test]
fn run_skill_script_enforces_allowed_tools() {
    let registry = locked_registry("read_skill_resource");
    let request = script_request(&params(
        r#"{"skill_name": "locked-skill", "script": "scripts/test.py"}"#,
    ))
    .ok()
    .unwrap();
    let result = script_directory(&registry, &request).err().unwrap();
    assert!(!result.success);
    assert!(result
        .error
        .unwrap_or_default()
        .contains("does not permit tool 'run_skill_script'"));
}

#[test]
fn read_skill_resource_enforces_allowed_tools() {
    let registry = locked_registry("run_skill_script");
    let request = resource_request(&params(
        r#"{"skill_name": "locked-skill", "path": "references/guide.md"}"#,
    ))
    .ok()
    .unwrap();
    let result = resource_directory(&registry, &request).err().unwrap();
    assert!(!result.success);
    assert!(result
        .error
        .unwrap_or_default()
        .contains("does not permit tool 'read_skill_resource'"));
}

#[test]
fn permitted_tools_reach_the_directory_of_the_skill() {
    let registry = locked_registry("run_skill_script");
    let request = script_request(&params(
        r#"{"skill_name": "locked-skill", "script": "scripts/test.py", "args": "-v"}"#,
    ))
    .ok()
    .unwrap();
    assert_eq!(request.args, "-v");
    assert_eq!(
        script_directory(&registry, &request).ok().unwrap(),
        "/skills/locked-skill"
    );
}

#[test]
fn requests_need_their_parameters() {
    assert!(script_request(&params(r#"{"script": "a.py"}"#)).is_err());
    assert!(script_request(&params(r#"{"skill_name": "s"}"#)).is_err());
    assert!(resource_request(&params(r#"{"skill_name": "s"}"#)).is_err());
    assert!(resource_request(&params(r#"{"path": "a.md"}"#)).is_err());
}

#[test]
fn files_outside_the_skill_are_refused() {
    assert!(check_script_inside("/skills/a/scripts/x.py", "/skills/a").is_none());
    assert!(!check_script_inside("/skills/b/x.py", "/skills/a").unwrap().success);
    assert!(check_resource_inside("/skills/a/ref.md", "/skills/a").is_none());
    assert!(!check_resource_inside("/etc/passwd", "/skills/a").unwrap().success);
}

#[test]
fn interpreters_follow_what_is_installed() {
    let mut m = machine();
    m.bun = true;
    assert_eq!(resolve_typescript(&m).program, "bun");
    m.bun = false;
    m.deno = true;
    assert_eq!(resolve_typescript(&m).program, "deno");
    m.deno = false;
    assert_eq!(resolve_typescript(&m).program, "npx");
    m.windows = true;
    m.wsl = true;
    assert_eq!(resolve_shell(&m).program, "wsl");
    m.git_bash = Some("C:\\Git\\bin\\bash.exe".to_string());
    assert_eq!(resolve_shell(&m).program, "C:\\Git\\bin\\bash.exe");
    let inv = Invocation::new("npx", vec!["tsx".to_string()]);
    assert_eq!(inv.prefix_args, vec!["tsx"]);
}

#[test]
fn prefix_arguments_come_before_the_script() {
    let inv = Invocation::new("npx", vec!["tsx".to_string()]);
    let words = script_arguments(&inv, "a.ts", "b").ok().unwrap();
    assert_eq!(words, vec!["tsx", "a.ts", "b"]);
}

#[test]
fn script_results_are_told() {
    let good = format_execution_result("s", "a.py", 0, "out", "", "local");
    assert!(good.success);
    assert!(good.output.contains("out"));
    let bad = format_execution_result("s", "a.py", 2, "", "boom", "docker");
    assert!(!bad.success);
}

#[test]
fn steps_that_fail_are_told() {
    let told = |f: StepFailure| step_failed(&f, "s", "p").error.unwrap();
    assert!(told(StepFailure::Directory { error: "e1".into() }).contains("e1"));
    assert!(told(StepFailure::Script { error: "e2".into() }).contains("e2"));
    assert!(told(StepFailure::NoScript).contains('p'));
    assert!(told(StepFailure::Sandbox { error: "e3".into() }).contains("e3"));
    assert!(told(StepFailure::Start { error: "e4".into() }).contains("e4"));
    assert!(told(StepFailure::TooLong { seconds: 30 }).contains("30"));
    assert!(told(StepFailure::NoResource).contains('p'));
    assert!(told(StepFailure::Stat { error: "e5".into() }).contains("e5"));
    assert!(told(StepFailure::TooLarge { bytes: 12, limit: 10 }).contains("12"));
    assert!(told(StepFailure::Read { error: "e6".into() }).contains("e6"));
}

#[test]
fn large_resources_are_refused() {
    assert!(check_size(10, 10, "s", "p").is_none());
    assert!(check_size(11, 10, "s", "p").is_some());
    let result = resource_result("s", "p", "text");
    assert!(result.success);
    assert!(result.output.contains("text"));
    assert!(unresolved(Some("s")).message().contains('s'));
}

#[test]
fn parameters_keep_their_values() {
    let p = params(r#"{"a": "x", "b": [1]}"#);
    assert_eq!(p.get_str("a"), Some("x"));
    assert!(p.has("b"));
    assert!(matches!(parse("null"), Some(Json::Null)));
}
