use echo_agent::prompt_exec::{
    begin_skill_content, commands_overlap, direct_output, extract_command_regions,
    failure_output, finish_skill_content, has_command_markers, sandboxed_output,
    strip_placeholders, substitute_variables, timeout_output, PromptContext, SkillSource,
    SkillStep, DEFAULT_CMD_TIMEOUT_MS,
};

fn test_ctx() -> PromptContext {
    PromptContext {
        skill_dir: "/tmp/test-skill".into(),
        session_id: "session-abc123".into(),
        arguments: vec!["arg1".into(), "arg2".into()],
        shell: None,
        timeout_ms: 5_000,
        source: SkillSource::Local,
    }
}

/// Processes a skill, with `echo` as the only command there is.
fn process_skill_content(content: &str, ctx: &PromptContext) -> String {
    match begin_skill_content(content, ctx) {
        SkillStep::Done(text) => text,
        SkillStep::Run { text, commands } => {
            let mut outputs = Vec::new();
            for command in &commands {
                outputs.push(match command.strip_prefix("echo ") {
                    Some(words) => words.to_string(),
                    None => "(no such command)".to_string(),
                });
            }
            finish_skill_content(content, &text, &outputs)
        }
    }
}

#[test]
fn test_substitute_variables() {
    let ctx = test_ctx();
    let content = "Dir: ${SKILL_DIR}\nSession: ${SESSION_ID}\nArgs: ${ARGUMENTS}\nFirst: ${1}";
    let result = substitute_variables(content, &ctx);
    assert_eq!(
        result,
        "Dir: /tmp/test-skill\nSession: session-abc123\nArgs: arg1 arg2\nFirst: arg1"
    );
}

#[test]
fn test_substitute_claude_compat_vars() {
    let ctx = test_ctx();
    let content = "${CLAUDE_SKILL_DIR}/scripts/run.py ${CLAUDE_SESSION_ID}";
    let result = substitute_variables(content, &ctx);
    assert_eq!(result, "/tmp/test-skill/scripts/run.py session-abc123");
}

#[test]
fn test_substitute_no_args() {
    let ctx = PromptContext {
        arguments: vec![],
        ..test_ctx()
    };
    let content = "No args: ${ARGUMENTS} and ${1}";
    let result = substitute_variables(content, &ctx);
    assert_eq!(result, "No args:  and ${1}");
}

#[test]
fn test_block_command_execution() {
    let ctx = test_ctx();
    let content = "Before\n```!\necho hello-world\n```\nAfter";
    let result = process_skill_content(content, &ctx);
    assert!(result.contains("hello-world"), "got: {}", result);
    assert!(result.contains("Before"));
    assert!(result.contains("After"));
    assert!(!result.contains("```!"));
}

#[test]
fn test_inline_command_execution() {
    let ctx = test_ctx();
    let content = "Current dir is !`echo /test/path`";
    let result = process_skill_content(content, &ctx);
    assert!(result.contains("/test/path"), "got: {}", result);
    assert!(!result.contains("!`"));
}

#[test]
fn test_mcp_source_skips_execution() {
    let ctx = PromptContext {
        source: SkillSource::Mcp,
        ..test_ctx()
    };
    let content = "Run !`echo dangerous` here";
    let result = process_skill_content(content, &ctx);
    assert!(
        result.contains("!`echo dangerous`"),
        "MCP skill should not execute commands: {}",
        result
    );
}

#[test]
fn test_full_processing() {
    let ctx = test_ctx();
    let content = "Skill at ${SKILL_DIR}\nVersion: !`echo 1.0.0`";
    let result = process_skill_content(content, &ctx);
    assert!(result.contains("/tmp/test-skill"));
    assert!(result.contains("1.0.0"));
}

#[test]
fn test_injection_via_arguments_inline() {
    // User argument containing inline command syntax should NOT be executed
    let ctx = PromptContext {
        arguments: vec!["!`echo injected`".into()],
        ..test_ctx()
    };
    let content = "Args: ${ARGUMENTS}";
    let result = process_skill_content(content, &ctx);
    // The full command syntax must remain literal (not executed and replaced by output)
    assert!(
        result.contains("!`echo injected`"),
        "Injected inline command should remain as literal text, got: {}",
        result
    );
}

#[test]
fn test_injection_via_arguments_block() {
    // User argument containing block command syntax should NOT be executed
    let ctx = PromptContext {
        arguments: vec!["```!\necho injected\n```".into()],
        ..test_ctx()
    };
    let content = "Args: ${ARGUMENTS}";
    let result = process_skill_content(content, &ctx);
    // The block command markers must remain as literal text
    assert!(
        result.contains("```!"),
        "Injected block command marker should remain literal, got: {}",
        result
    );
}

#[test]
fn test_injection_via_positional_arg() {
    let ctx = PromptContext {
        arguments: vec!["!`touch /tmp/evil`".into()],
        ..test_ctx()
    };
    let content = "Arg1: ${1}";
    let result = process_skill_content(content, &ctx);
    assert!(
        result.contains("!`touch /tmp/evil`"),
        "Injected command should remain literal, got: {}",
        result
    );
}

#[test]
fn test_variables_still_expand_in_text_regions() {
    let ctx = PromptContext {
        arguments: vec!["world".into()],
        ..test_ctx()
    };
    // Command is in the original content, variables in text region
    let content = "Hello ${1}! Status: !`echo ok`";
    let result = process_skill_content(content, &ctx);
    assert!(
        result.contains("Hello world!"),
        "Variable should expand: {}",
        result
    );
    assert!(
        result.contains("ok"),
        "Command should still execute: {}",
        result
    );
}

#[test]
fn test_injection_safe_argument_no_command() {
    // Safe argument should work normally
    let ctx = PromptContext {
        arguments: vec!["safe-value".into()],
        ..test_ctx()
    };
    let content = "Arg: ${1}";
    let result = process_skill_content(content, &ctx);
    assert_eq!(result, "Arg: safe-value");
}

#[test]
fn commands_are_found_where_they_stand() {
    let regions = extract_command_regions("a !`one` b\n```!\ntwo\n```\n");
    assert_eq!(regions.len(), 2);
    let mut texts: Vec<(String, bool)> = Vec::new();
    for r in &regions {
        texts.push((r.command_text.clone(), r.is_block));
    }
    assert!(texts.contains(&("one".to_string(), false)));
    assert!(texts.contains(&("two".to_string(), true)));
    assert!(has_command_markers("x !`y`"));
    assert!(!has_command_markers("x `y`"));
    assert!(!commands_overlap("a !`one` b !`two`"));
}

#[test]
fn placeholders_of_others_are_removed() {
    assert_eq!(strip_placeholders("a\u{1}CMD_OUT_12\u{1}b"), "ab");
    assert_eq!(strip_placeholders("a\u{1}CMD_OUT_\u{1}b"), "a\u{1}CMD_OUT_\u{1}b");
    let ctx = PromptContext {
        arguments: vec!["!`echo no`".into()],
        ..test_ctx()
    };
    assert_eq!(process_skill_content("${1} and !`echo ok`", &ctx), "!`echo no` and");
}

#[test]
fn defaults_of_a_context() {
    let ctx = PromptContext::default();
    assert_eq!(ctx.timeout_ms, DEFAULT_CMD_TIMEOUT_MS);
    assert!(ctx.arguments.is_empty());
    assert!(ctx.source == SkillSource::Local);
}

#[test]
fn outcomes_of_commands_are_told() {
    assert_eq!(sandboxed_output(true, "fine\n", "", 0), "fine");
    assert_eq!(direct_output(true, "fine\n", "", Some(0)), "fine");
    assert!(direct_output(false, "", "broken", Some(3)).contains("broken"));
    assert!(direct_output(false, "", "", Some(3)).contains('3'));
    assert!(timeout_output(5_000).contains('5'));
    assert!(failure_output(false, "no shell").contains("no shell"));
}

#[test]
fn activations_run_the_same_commands() {
    let commands = |arguments: Vec<String>, source: SkillSource| {
        let ctx = PromptContext { arguments, source, ..test_ctx() };
        match begin_skill_content("${1}: !`date`", &ctx) {
            SkillStep::Done(_) => vec![],
            SkillStep::Run { commands, .. } => commands,
        }
    };
    assert_eq!(commands(vec!["a".to_string()], SkillSource::Local), vec!["date"]);
    assert_eq!(commands(vec!["b c".to_string()], SkillSource::Local), vec!["date"]);
    assert!(commands(vec!["!`id`".to_string()], SkillSource::Local).is_empty());
    assert!(commands(vec!["a".to_string()], SkillSource::Mcp).is_empty());
}
