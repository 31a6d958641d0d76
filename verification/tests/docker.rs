use echo_agent::docker::{
    created_container, finished_run, listed_containers, run_time_limit, select_image_for_command,
    timed_out_run, DockerConfig, DockerSandbox, SANDBOX_LABEL,
};
use echo_agent::sandbox::{
    CommandKind, ExecutionResult, IsolationLevel, ResourceLimits, SandboxCommand,
    DEFAULT_TIMEOUT_MS,
};

fn sensitive() -> Vec<String> {
    vec!["/etc".to_string()]
}

#[test]
fn test_docker_config_default() {
    let config = DockerConfig::default();
    assert_eq!(config.default_image, "ubuntu:22.04");
    assert!(config.auto_remove);
    assert!(config.disable_network);
}

#[test]
fn test_select_image_python() {
    let sandbox = DockerSandbox::new(DockerConfig::default(), sensitive());
    let cmd = SandboxCommand::code("python", "print(1)");
    let image = sandbox.select_image(&cmd);
    assert_eq!(image, "python:3.12-slim");
}

#[test]
fn test_select_image_fallback() {
    let sandbox = DockerSandbox::new(DockerConfig::default(), sensitive());
    let cmd = SandboxCommand::shell("echo hello");
    let image = sandbox.select_image(&cmd);
    assert_eq!(image, "ubuntu:22.04");
}

#[test]
fn test_docker_args_security() {
    let sandbox = DockerSandbox::new(DockerConfig::default(), sensitive());
    let cmd = SandboxCommand::shell("echo test");
    let args = sandbox.build_docker_create_args(&cmd, None).unwrap();

    assert_eq!(args.first().map(String::as_str), Some("create"));
    assert!(args.contains(&"--label".to_string()));
    assert!(args.contains(&SANDBOX_LABEL.to_string()));
    assert!(args.contains(&"--cap-drop=ALL".to_string()));
    assert!(args.contains(&"--security-opt=no-new-privileges".to_string()));
    assert!(args.contains(&"--network=none".to_string()));
    assert!(args.contains(&"--init".to_string()));
    assert!(args.contains(&"--restart=no".to_string()));
    assert!(args.contains(&"--read-only".to_string()));
    assert!(args.contains(&"--ulimit=nofile=256:512".to_string()));
    assert!(args.contains(&"--ulimit=nproc=64:128".to_string()));
}

#[test]
fn test_docker_args_with_limits() {
    let sandbox = DockerSandbox::new(DockerConfig::default(), sensitive());
    let cmd = SandboxCommand::shell("echo test");
    let limits = ResourceLimits {
        max_processes: Some(16),
        network: true,
        ..Default::default()
    };
    let args = sandbox
        .build_docker_create_args(&cmd, Some(&limits))
        .unwrap();

    assert!(args.contains(&"--pids-limit=16".to_string()));
    // network=true in limits overrides config
    assert!(!args.contains(&"--network=none".to_string()));
}

#[test]
fn test_inner_command_shell() {
    let cmd = SandboxCommand::shell("ls -la");
    let inner = DockerSandbox::build_inner_command(&cmd);
    assert_eq!(inner, vec!["sh", "-c", "ls -la"]);
}

#[test]
fn test_inner_command_code() {
    let cmd = SandboxCommand::code("python", "print('hi')");
    let inner = DockerSandbox::build_inner_command(&cmd);
    assert_eq!(inner, vec!["python3", "-c", "print('hi')"]);
}

#[test]
fn test_docker_args_include_full_command() {
    let sandbox = DockerSandbox::new(DockerConfig::default(), sensitive());
    let cmd = SandboxCommand::program("python3", vec!["-V".to_string()]);
    let args = sandbox.build_docker_create_args(&cmd, None).unwrap();

    assert_eq!(args.first().map(String::as_str), Some("create"));
    assert!(args.contains(&"python3".to_string()));
    assert!(args.contains(&"-V".to_string()));
    assert!(!args.contains(&"run".to_string()));
}

#[test]
fn containers_sit_at_their_level() {
    let sandbox = DockerSandbox::new(DockerConfig::default(), sensitive());
    assert_eq!(sandbox.name(), "docker");
    assert!(sandbox.isolation_level() == IsolationLevel::Container);
    assert_eq!(IsolationLevel::Unconfined.label(), "none");
    assert_eq!(IsolationLevel::Container.label(), "container");
}

#[test]
fn images_follow_the_language() {
    let config = DockerConfig::default();
    let image = |language: &str| {
        select_image_for_command(
            &SandboxCommand::code(language, "x"),
            &config.language_images,
            &config.default_image,
        )
    };
    assert_eq!(image("python"), "python:3.12-slim");
    assert_eq!(image("no-such-language"), "ubuntu:22.04");
}

#[test]
fn dangerous_extra_arguments_are_dropped() {
    let mut config = DockerConfig::default();
    config.extra_args = vec!["--privileged".to_string(), "--hostname=box".to_string()];
    let sandbox = DockerSandbox::new(config, sensitive());
    let args = sandbox
        .build_docker_create_args(&SandboxCommand::shell("ls"), None)
        .unwrap();
    assert!(!args.contains(&"--privileged".to_string()));
    assert!(args.contains(&"--hostname=box".to_string()));
}

#[test]
fn sensitive_mounts_are_refused() {
    let sandbox = DockerSandbox::new(DockerConfig::default(), sensitive());
    assert!(sandbox.validate_mount_paths(&vec!["/etc/passwd".to_string()]).is_err());
    assert!(sandbox.validate_mount_paths(&vec!["/srv/data".to_string()]).is_ok());
    let limits = ResourceLimits {
        writable_paths: vec!["/etc".to_string()],
        ..Default::default()
    };
    assert!(sandbox
        .build_docker_create_args(&SandboxCommand::shell("ls"), Some(&limits))
        .is_err());
}

#[test]
fn a_limit_on_cpu_time_sets_the_time_limit() {
    let command = SandboxCommand::shell("sleep 9").with_timeout(20_000);
    assert_eq!(SandboxCommand::shell("ls").timeout_ms, DEFAULT_TIMEOUT_MS);
    assert_eq!(run_time_limit(&command, None), 20_000);
    let limits = ResourceLimits {
        cpu_time_secs: Some(3),
        ..Default::default()
    };
    assert_eq!(run_time_limit(&command, Some(&limits)), 3_000);
}

#[test]
fn long_output_is_cut() {
    let limits = ResourceLimits {
        max_output_bytes: Some(4),
        ..Default::default()
    };
    let result = finished_run(Some(0), "abcdefgh", "", 7, Some(&limits));
    assert!(result.success());
    assert!(result.stdout.starts_with("abcd"));
    assert!(!result.stdout.contains("efgh"));
    let whole = finished_run(None, "abc", "err", 7, None);
    assert_eq!(whole.exit_code, -1);
    assert_eq!(whole.stdout, "abc");
    assert!(!whole.success());
}

#[test]
fn a_run_that_takes_too_long_is_reported() {
    let result = timed_out_run(30_000, 30_004);
    assert_eq!(result.exit_code, -1);
    assert_eq!(result.stderr, "Docker execution timed out after 30s");
    assert!(result.timed_out);
    assert_eq!(result.sandbox_type, "docker");
}

#[test]
fn container_ids_are_read() {
    assert_eq!(created_container("abc123\n", "").unwrap(), "abc123");
    assert!(created_container("  \n", "no such image").is_err());
    assert_eq!(
        listed_containers("a1\nb2\n"),
        vec!["a1".to_string(), "b2".to_string()]
    );
    assert!(listed_containers(" \n").is_empty());
}

#[test]
fn output_streams_are_combined() {
    let result = |stdout: &str, stderr: &str| ExecutionResult {
        exit_code: 0,
        stdout: stdout.to_string(),
        stderr: stderr.to_string(),
        duration_ms: 1,
        sandbox_type: "docker".to_string(),
        timed_out: false,
    };
    assert_eq!(result("out", "").combined_output(), "out");
    assert_eq!(result("", "err").combined_output(), "err");
    assert!(result("out", "err").combined_output().contains("err"));
}

#[test]
fn commands_keep_their_settings() {
    let command = SandboxCommand::program("ls", vec!["-l".to_string()])
        .with_working_dir("/tmp")
        .with_env("KEY", "value")
        .with_stdin("in");
    assert_eq!(command.working_dir.as_deref(), Some("/tmp"));
    assert_eq!(command.stdin.as_deref(), Some("in"));
    assert_eq!(command.env.get("KEY").map(|v| v.as_str()), Some("value"));
    assert!(matches!(command.kind, CommandKind::Program { .. }));
}
