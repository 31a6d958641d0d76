use echo_agent::hook_engine::{
    begin_action, matches_hook, merge_result, parse_hook_output, record_result, ActionStep,
    HookAction, HookRegistry, HookRule, HooksDefinition,
};
use echo_agent::hook_io::{context_json, event_named, hook_input};
use echo_agent::hooks::{
    CompressHookStats, HookContext, HookEvent, HookEventCategory, HookResult, HookSource,
    PermissionDecision, PermissionMode,
};
use echo_agent::json::{parse, print, Json};
use echo_agent::patterns::matches_tool_name;

fn doc(text: &str) -> Json {
    parse(text).unwrap()
}

/// Runs the hooks of a registry that need nothing from outside.
fn run(registry: &HookRegistry, context: &HookContext) -> HookResult {
    let mut combined = HookResult::default();
    for planned in registry.plan(context) {
        if let ActionStep::Done(result) = begin_action(planned.action, planned.source_dir, false) {
            if record_result(&mut combined, result) {
                break;
            }
        }
    }
    combined
}

fn run_pre_tool_use(registry: &HookRegistry, tool: &str, input: &Json, id: &str) -> HookResult {
    run(registry, &HookContext::for_pre_tool_use(tool, input, id, ""))
}

#[test]
fn test_hook_event_category() {
    assert_eq!(HookEvent::PreToolUse.category(), HookEventCategory::Tool);
    assert_eq!(
        HookEvent::PermissionDenied.category(),
        HookEventCategory::Tool
    );
    assert_eq!(
        HookEvent::SessionStart.category(),
        HookEventCategory::Lifecycle
    );
    assert_eq!(
        HookEvent::PostToolBatch.category(),
        HookEventCategory::Lifecycle
    );
    assert_eq!(
        HookEvent::InstructionsLoaded.category(),
        HookEventCategory::Lifecycle
    );
    assert_eq!(
        HookEvent::SubagentStart.category(),
        HookEventCategory::Subagent
    );
    assert_eq!(
        HookEvent::SubagentStop.category(),
        HookEventCategory::Subagent
    );
    assert_eq!(HookEvent::TaskCreated.category(), HookEventCategory::Task);
    assert_eq!(HookEvent::TaskCompleted.category(), HookEventCategory::Task);
    assert_eq!(HookEvent::StopFailure.category(), HookEventCategory::Error);
    assert_eq!(
        HookEvent::PostMemoryWrite.category(),
        HookEventCategory::Evolution
    );
    assert_eq!(
        HookEvent::MemoryLayerChange.category(),
        HookEventCategory::Evolution
    );
}

#[test]
fn types_test_hook_event_is_tool_event() {
    assert!(HookEvent::PreToolUse.is_tool_event());
    assert!(HookEvent::PostToolUse.is_tool_event());
    assert!(HookEvent::PermissionDenied.is_tool_event());
    assert!(!HookEvent::SessionStart.is_tool_event());
    assert!(!HookEvent::StopFailure.is_tool_event());
}

#[test]
fn types_test_hook_event_supports_matcher() {
    assert!(HookEvent::PreToolUse.supports_matcher());
    assert!(HookEvent::SessionStart.supports_matcher());
    assert!(HookEvent::SubagentStart.supports_matcher());
    assert!(HookEvent::TaskCreated.supports_matcher());
    assert!(!HookEvent::StopFailure.supports_matcher());
}

#[test]
fn test_hook_event_as_str() {
    assert_eq!(HookEvent::PreToolUse.as_str(), "PreToolUse");
    assert_eq!(HookEvent::PostToolUse.as_str(), "PostToolUse");
    assert_eq!(HookEvent::PostToolUseFailure.as_str(), "PostToolUseFailure");
    assert_eq!(HookEvent::PermissionRequest.as_str(), "PermissionRequest");
    assert_eq!(HookEvent::PermissionDenied.as_str(), "PermissionDenied");
    assert_eq!(HookEvent::SessionStart.as_str(), "SessionStart");
    assert_eq!(HookEvent::SessionEnd.as_str(), "SessionEnd");
    assert_eq!(HookEvent::Stop.as_str(), "Stop");
    assert_eq!(HookEvent::Notification.as_str(), "Notification");
    assert_eq!(HookEvent::UserPromptSubmit.as_str(), "UserPromptSubmit");
    assert_eq!(HookEvent::PreCompact.as_str(), "PreCompact");
    assert_eq!(HookEvent::PostCompact.as_str(), "PostCompact");
    assert_eq!(HookEvent::ConfigChange.as_str(), "ConfigChange");
    assert_eq!(HookEvent::InstructionsLoaded.as_str(), "InstructionsLoaded");
    assert_eq!(HookEvent::PostToolBatch.as_str(), "PostToolBatch");
    assert_eq!(HookEvent::SubagentStart.as_str(), "SubagentStart");
    assert_eq!(HookEvent::SubagentStop.as_str(), "SubagentStop");
    assert_eq!(HookEvent::TaskCreated.as_str(), "TaskCreated");
    assert_eq!(HookEvent::TaskCompleted.as_str(), "TaskCompleted");
    assert_eq!(HookEvent::StopFailure.as_str(), "StopFailure");
    assert_eq!(HookEvent::PostMemoryWrite.as_str(), "PostMemoryWrite");
    assert_eq!(HookEvent::MemoryLayerChange.as_str(), "MemoryLayerChange");
}

#[test]
fn types_test_hook_event_serde() {
    let event = HookEvent::PermissionDenied;
    let json = print(&Json::Str(event.as_str().to_string()));
    assert_eq!(json, "\"PermissionDenied\"");

    let event = HookEvent::SubagentStart;
    let json = print(&Json::Str(event.as_str().to_string()));
    assert_eq!(json, "\"SubagentStart\"");

    let parsed = event_named("TaskCompleted").unwrap();
    assert_eq!(parsed, HookEvent::TaskCompleted);
}

#[test]
fn test_hook_context_for_permission_denied() {
    let ctx = HookContext::for_permission_denied(
        "Bash",
        &doc(r#"{"command": "rm -rf /"}"#),
        "unsafe command",
        true,
        "sess-1",
        "agent",
    );
    assert_eq!(ctx.event, HookEvent::PermissionDenied);
    assert_eq!(ctx.tool_name.as_deref(), Some("Bash"));
    assert_eq!(ctx.denial_reason.as_deref(), Some("unsafe command"));
    assert_eq!(ctx.retry_allowed, Some(true));
}

#[test]
fn test_hook_context_for_stop_failure() {
    let ctx = HookContext::for_stop_failure(
        "MaxIterationsExceeded",
        "max_iterations",
        "sess-1",
        "agent",
    );
    assert_eq!(ctx.event, HookEvent::StopFailure);
    assert_eq!(ctx.failure_error.as_deref(), Some("MaxIterationsExceeded"));
    assert_eq!(ctx.failure_category.as_deref(), Some("max_iterations"));
}

#[test]
fn test_hook_context_for_post_tool_batch() {
    let names = vec!["Bash".to_string(), "Read".to_string()];
    let ctx = HookContext::for_post_tool_batch(&names, 1, 1, "sess-1", "agent");
    assert_eq!(ctx.event, HookEvent::PostToolBatch);
    assert_eq!(ctx.batch_tool_names.as_ref().unwrap().len(), 2);
    assert_eq!(ctx.batch_success_count, Some(1));
    assert_eq!(ctx.batch_failure_count, Some(1));
}

#[test]
fn test_hook_context_for_subagent() {
    let ctx = HookContext::for_subagent_start(
        "coder",
        "sync",
        "implement feature X",
        "sess-1",
        "agent",
    );
    assert_eq!(ctx.event, HookEvent::SubagentStart);
    assert_eq!(ctx.subagent_name.as_deref(), Some("coder"));
    assert_eq!(ctx.subagent_mode.as_deref(), Some("sync"));
    assert_eq!(ctx.subagent_task.as_deref(), Some("implement feature X"));
}

#[test]
fn test_hook_context_for_task() {
    let ctx = HookContext::for_task_created("t-1", "build API", "sess-1", "agent");
    assert_eq!(ctx.event, HookEvent::TaskCreated);
    assert_eq!(ctx.task_id.as_deref(), Some("t-1"));
    assert_eq!(ctx.task_subject.as_deref(), Some("build API"));
}

#[test]
fn test_hook_result_retry() {
    let mut result = HookResult::default();
    assert!(!result.retry);
    result.retry = true;
    assert!(result.retry);
}

#[test]
fn test_hook_result_allow_deny_ask() {
    let result = HookResult::allow();
    assert!(result.has_permission_decision());
    assert!(result.permission_decision.unwrap().is_allowed());

    let result = HookResult::deny("unsafe".to_string());
    assert!(result.block);
    assert!(result.permission_decision.unwrap().is_denied());

    let result = HookResult::ask(vec!["Allow".to_string()]);
    assert!(result.permission_decision.unwrap().requires_approval());
}

#[test]
fn test_evolution_event_category() {
    assert_eq!(
        HookEvent::PostMemoryWrite.category(),
        HookEventCategory::Evolution
    );
    assert_eq!(
        HookEvent::MemoryLayerChange.category(),
        HookEventCategory::Evolution
    );
}

#[test]
fn test_evolution_event_supports_matcher() {
    assert!(HookEvent::PostMemoryWrite.supports_matcher());
    assert!(HookEvent::MemoryLayerChange.supports_matcher());
}

#[test]
fn test_evolution_event_as_str() {
    assert_eq!(HookEvent::PostMemoryWrite.as_str(), "PostMemoryWrite");
    assert_eq!(HookEvent::MemoryLayerChange.as_str(), "MemoryLayerChange");
}

#[test]
fn test_for_post_memory_write() {
    let ctx = HookContext::for_post_memory_write("build_java8", "error_resolution", "s1", "a1");
    assert_eq!(ctx.event, HookEvent::PostMemoryWrite);
    assert_eq!(ctx.memory_key.as_deref(), Some("build_java8"));
    assert_eq!(ctx.memory_source.as_deref(), Some("error_resolution"));
    assert_eq!(ctx.matcher.as_deref(), Some("error_resolution"));
}

#[test]
fn test_for_memory_layer_change() {
    let ctx =
        HookContext::for_memory_layer_change("build_java8", "warm", "hot", "s1", "a1");
    assert_eq!(ctx.event, HookEvent::MemoryLayerChange);
    assert_eq!(ctx.memory_key.as_deref(), Some("build_java8"));
    assert_eq!(ctx.memory_from_layer.as_deref(), Some("warm"));
    assert_eq!(ctx.memory_to_layer.as_deref(), Some("hot"));
    assert_eq!(ctx.matcher.as_deref(), Some("warm->hot"));
}

#[test]
fn hooks_test_hook_event_is_tool_event() {
    assert!(HookEvent::PreToolUse.is_tool_event());
    assert!(HookEvent::PostToolUse.is_tool_event());
    assert!(HookEvent::PostToolUseFailure.is_tool_event());
    assert!(HookEvent::PermissionRequest.is_tool_event());
    assert!(HookEvent::PermissionDenied.is_tool_event());
    assert!(!HookEvent::SessionStart.is_tool_event());
    assert!(!HookEvent::Stop.is_tool_event());
    assert!(!HookEvent::Notification.is_tool_event());
    assert!(!HookEvent::StopFailure.is_tool_event());
}

#[test]
fn hooks_test_hook_event_supports_matcher() {
    assert!(HookEvent::PreToolUse.supports_matcher());
    assert!(HookEvent::SessionStart.supports_matcher());
    assert!(HookEvent::Notification.supports_matcher());
    assert!(HookEvent::SubagentStart.supports_matcher());
    assert!(HookEvent::TaskCreated.supports_matcher());
    assert!(HookEvent::PostToolBatch.supports_matcher());
    assert!(HookEvent::UserPromptSubmit.supports_matcher());
    assert!(!HookEvent::StopFailure.supports_matcher());
}

#[test]
fn hooks_test_hook_event_serde() {
    let event = HookEvent::PreToolUse;
    let json = print(&Json::Str(event.as_str().to_string()));
    assert_eq!(json, "\"PreToolUse\"");

    let event = HookEvent::SessionStart;
    let json = print(&Json::Str(event.as_str().to_string()));
    assert_eq!(json, "\"SessionStart\"");

    let parsed = event_named("PostToolUseFailure").unwrap();
    assert_eq!(parsed, HookEvent::PostToolUseFailure);
}

#[test]
fn test_hook_context_for_pre_tool_use() {
    let ctx =
        HookContext::for_pre_tool_use("Bash", &doc(r#"{"command": "ls"}"#), "sess-1", "agent");
    assert_eq!(ctx.event, HookEvent::PreToolUse);
    assert_eq!(ctx.tool_name.as_deref(), Some("Bash"));
    assert_eq!(ctx.session_id, "sess-1");
    assert!(ctx.tool_output.is_none());
    assert!(ctx.matcher.is_none());
}

#[test]
fn test_hook_context_for_session_start() {
    let ctx = HookContext::for_session_start("startup", "sess-1", "agent");
    assert_eq!(ctx.event, HookEvent::SessionStart);
    assert_eq!(ctx.matcher.as_deref(), Some("startup"));
    assert!(ctx.tool_name.is_none());
}

#[test]
fn test_hook_context_for_stop() {
    let ctx = HookContext::for_stop(None, "sess-1", "agent", false);
    assert_eq!(ctx.event, HookEvent::Stop);
    assert!(ctx.matcher.is_none());
    assert!(ctx.tool_name.is_none());
}

#[test]
fn test_hook_context_for_notification() {
    let ctx = HookContext::for_notification("permission_prompt", "sess-1", "agent");
    assert_eq!(ctx.event, HookEvent::Notification);
    assert_eq!(ctx.matcher.as_deref(), Some("permission_prompt"));
}

#[test]
fn test_matches_hook_wildcard() {
    let ctx = HookContext::for_pre_tool_use("Bash", &doc(r#"{}"#), "", "");
    assert!(matches_hook("*", &ctx));
    assert!(matches_hook("", &ctx));
}

#[test]
fn test_matches_hook_tool_name_exact() {
    let ctx = HookContext::for_pre_tool_use("Bash", &doc(r#"{}"#), "", "");
    assert!(matches_hook("Bash", &ctx));
    assert!(!matches_hook("Read", &ctx));
}

#[test]
fn test_matches_hook_tool_name_pipe_separated() {
    let ctx = HookContext::for_pre_tool_use("Edit", &doc(r#"{}"#), "", "");
    assert!(matches_hook("Edit|Write", &ctx));
    assert!(matches_hook("Write|Edit", &ctx));
    assert!(!matches_hook("Bash|Read", &ctx));
}

#[test]
fn test_matches_hook_tool_name_prefix() {
    let ctx = HookContext::for_pre_tool_use("Bash(git:*)", &doc(r#"{}"#), "", "");
    assert!(matches_hook("Bash", &ctx));
}

#[test]
fn test_matches_hook_lifecycle_matcher() {
    let ctx = HookContext::for_session_start("startup", "", "");
    assert!(matches_hook("startup", &ctx));
    assert!(!matches_hook("resume", &ctx));
}

#[test]
fn test_matches_hook_lifecycle_pipe_separated() {
    let ctx = HookContext::for_session_start("resume", "", "");
    assert!(matches_hook("startup|resume", &ctx));
}

#[test]
fn test_matches_hook_lifecycle_glob() {
    let ctx = HookContext::for_notification("permission_prompt", "", "");
    assert!(matches_hook("permission*", &ctx));
}

#[test]
fn test_matches_hook_no_matcher_event() {
    let ctx = HookContext::for_stop(None, "", "", false);
    // Stop doesn't support matcher, so only "*" and "" match
    assert!(matches_hook("*", &ctx));
    assert!(matches_hook("", &ctx));
    assert!(!matches_hook("something", &ctx));
}

#[test]
fn test_matches_hook_subagent_stop() {
    let ctx = HookContext::for_subagent_stop("coder", "sync", "success", "", "");
    assert!(matches_hook("coder", &ctx));
    assert!(!matches_hook("planner", &ctx));
}

#[test]
fn test_matches_hook_task_created() {
    let ctx = HookContext::for_task_created("t-1", "build API", "", "");
    assert!(matches_hook("build API", &ctx));
    assert!(matches_hook("*", &ctx));
    assert!(!matches_hook("deploy", &ctx));
}

#[test]
fn test_matches_hook_task_completed() {
    let ctx = HookContext::for_task_completed("t-1", "build API", "success", "", "");
    assert!(matches_hook("build API", &ctx));
    assert!(!matches_hook("deploy", &ctx));
}

#[test]
fn test_hooks_definition_empty() {
    let def = HooksDefinition::default();
    assert!(def.is_empty());
}

#[test]
fn test_hooks_definition_add_rules() {
    let mut def = HooksDefinition::default();
    def.add_rules(
        HookEvent::PreToolUse,
        vec![HookRule {
            matcher: "Bash".into(),
            hooks: vec![HookAction::Prompt {
                prompt: "test".into(),
            }],
        }],
    );
    assert!(!def.is_empty());
    assert_eq!(def.rules_for(HookEvent::PreToolUse).len(), 1);
    assert_eq!(def.rules_for(HookEvent::PostToolUse).len(), 0);
}

#[test]
fn rules_are_counted_over_all_events() {
    let rule = |matcher: &str| HookRule {
        matcher: matcher.into(),
        hooks: vec![HookAction::Prompt { prompt: "p".into() }],
    };
    let mut def = HooksDefinition::default();
    assert_eq!(def.count(), 0);
    def.add_rules(HookEvent::PreToolUse, vec![rule("a"), rule("b")]);
    def.add_rules(HookEvent::RulePromoted, vec![rule("c")]);
    assert_eq!(def.count(), 3);
    let mut other = HooksDefinition::default();
    other.add_rules(HookEvent::PreToolUse, vec![rule("d")]);
    def.merge(other);
    assert_eq!(def.count(), 4);
}

#[test]
fn test_hooks_definition_merge() {
    let mut def1 = HooksDefinition::default();
    def1.add_rules(
        HookEvent::PreToolUse,
        vec![HookRule {
            matcher: "Bash".into(),
            hooks: vec![HookAction::Prompt {
                prompt: "from-1".into(),
            }],
        }],
    );

    let mut def2 = HooksDefinition::default();
    def2.add_rules(
        HookEvent::PreToolUse,
        vec![HookRule {
            matcher: "Read".into(),
            hooks: vec![HookAction::Prompt {
                prompt: "from-2".into(),
            }],
        }],
    );
    def2.add_rules(
        HookEvent::SessionStart,
        vec![HookRule {
            matcher: "startup".into(),
            hooks: vec![HookAction::Prompt {
                prompt: "welcome".into(),
            }],
        }],
    );

    def1.merge(def2);
    assert_eq!(def1.rules_for(HookEvent::PreToolUse).len(), 2);
    assert_eq!(def1.rules_for(HookEvent::SessionStart).len(), 1);
}

#[test]
fn test_hook_result_allow() {
    let result = HookResult::allow();
    assert!(result.has_permission_decision());
    assert!(result.permission_decision.unwrap().is_allowed());
}

#[test]
fn test_hook_result_deny() {
    let result = HookResult::deny("test reason".to_string());
    assert!(result.has_permission_decision());
    assert!(result.permission_decision.unwrap().is_denied());
    assert!(result.block);
}

#[test]
fn test_hook_result_ask() {
    let result = HookResult::ask(vec!["Option A".to_string()]);
    assert!(result.has_permission_decision());
    assert!(result.permission_decision.unwrap().requires_approval());
}

#[test]
fn test_hook_result_should_continue() {
    let mut result = HookResult::default();
    assert!(!result.should_continue());
    result.continue_reason = Some("Check tests".to_string());
    assert!(result.should_continue());
}

#[test]
fn test_parse_hook_output_empty() {
    let result = parse_hook_output("", 0);
    assert!(!result.block);
}

#[test]
fn test_parse_hook_output_block() {
    let result = parse_hook_output(r#"{"decision": "block", "reason": "unsafe"}"#, 0);
    assert!(result.block);
    assert_eq!(result.block_reason, Some("unsafe".into()));
}

#[test]
fn test_parse_hook_output_allow() {
    let result = parse_hook_output(r#"{"decision": "allow"}"#, 1);
    assert!(!result.block);
}

#[test]
fn test_parse_hook_output_nonzero_exit_code_1_no_block() {
    // exit 1 = no block (hook produced output but no block intent)
    let result = parse_hook_output("", 1);
    assert!(!result.block);
}

#[test]
fn test_parse_hook_output_exit_code_2_block() {
    // exit 2 = explicit block signal
    let result = parse_hook_output("", 2);
    assert!(result.block);
    assert_eq!(
        result.block_reason,
        Some("Hook exited with code 2 (explicit block)".to_string())
    );
}

#[test]
fn test_parse_hook_output_exit_code_other_no_block() {
    // Other non-zero = warning, no block
    let result = parse_hook_output("", 3);
    assert!(!result.block);
    let result = parse_hook_output("", 127);
    assert!(!result.block);
}

#[test]
fn test_parse_hook_output_retry_field() {
    let result = parse_hook_output(r#"{"retry": true}"#, 0);
    assert!(result.retry);
}

#[test]
fn test_parse_hook_output_retry_false_by_default() {
    let result = parse_hook_output("", 0);
    assert!(!result.retry);
}

#[test]
fn test_parse_hook_output_updated_input() {
    let result = parse_hook_output(r#"{"updatedInput": {"command": "safe-command"}}"#, 0);
    assert!(!result.block);
    assert_eq!(
        print(result.updated_input.as_ref().unwrap()),
        print(&doc(r#"{"command": "safe-command"}"#))
    );
}

#[test]
fn test_parse_hook_output_continue_reason() {
    let result = parse_hook_output(r#"{"continue_reason": "Run tests before stopping"}"#, 0);
    assert_eq!(
        result.continue_reason,
        Some("Run tests before stopping".to_string())
    );
}

#[test]
fn test_parse_hook_output_injected_context() {
    let result = parse_hook_output(r#"{"injected_context": "Remember to use bun"}"#, 0);
    assert_eq!(
        result.injected_context,
        Some("Remember to use bun".to_string())
    );
}

#[test]
fn test_parse_hook_output_non_json_as_context() {
    let result = parse_hook_output("Remember: use bun, not npm", 0);
    assert_eq!(
        result.injected_context,
        Some("Remember: use bun, not npm".to_string())
    );
}

#[test]
fn test_parse_hook_output_permission_decision_allow() {
    let result = parse_hook_output(r#"{"permission_decision": "allow"}"#, 0);
    assert!(result.has_permission_decision());
    assert!(result.permission_decision.unwrap().is_allowed());
}

#[test]
fn test_parse_hook_output_permission_decision_deny() {
    let result = parse_hook_output(
        r#"{"permission_decision": "deny", "permission_reason": "unsafe"}"#,
        0,
    );
    assert!(result.has_permission_decision());
    assert!(result.permission_decision.unwrap().is_denied());
}

#[test]
fn test_parse_hook_output_permission_mode() {
    let result = parse_hook_output(r#"{"permission_mode": "auto"}"#, 0);
    assert_eq!(result.permission_mode_override, Some(PermissionMode::Auto));
}

#[test]
fn test_merge_result_permission_priority_deny_wins() {
    let mut combined = HookResult {
        permission_decision: Some(PermissionDecision::Allow),
        ..HookResult::default()
    };

    let incoming = HookResult {
        permission_decision: Some(PermissionDecision::Ask {
            suggestions: vec!["Allow".to_string()],
        }),
        ..HookResult::default()
    };
    merge_result(&mut combined, incoming);
    assert!(matches!(
        combined.permission_decision.as_ref().unwrap(),
        PermissionDecision::Ask { .. }
    ));

    let incoming2 = HookResult {
        permission_decision: Some(PermissionDecision::Deny {
            reason: "unsafe".to_string(),
        }),
        ..HookResult::default()
    };
    merge_result(&mut combined, incoming2);
    assert!(matches!(
        combined.permission_decision.as_ref().unwrap(),
        PermissionDecision::Deny { .. }
    ));

    let incoming3 = HookResult {
        permission_decision: Some(PermissionDecision::Allow),
        ..HookResult::default()
    };
    merge_result(&mut combined, incoming3);
    assert!(matches!(
        combined.permission_decision.as_ref().unwrap(),
        PermissionDecision::Deny { .. }
    ));
}

#[test]
fn test_merge_result_continue_reason() {
    let mut combined = HookResult::default();
    merge_result(
        &mut combined,
        HookResult {
            continue_reason: Some("Check tests".to_string()),
            ..HookResult::default()
        },
    );
    assert_eq!(combined.continue_reason, Some("Check tests".to_string()));

    // Later non-None overrides
    merge_result(
        &mut combined,
        HookResult {
            continue_reason: Some("Different reason".to_string()),
            ..HookResult::default()
        },
    );
    assert_eq!(
        combined.continue_reason,
        Some("Different reason".to_string())
    );
}

#[test]
fn test_merge_result_injected_context_concatenates() {
    let mut combined = HookResult::default();
    merge_result(
        &mut combined,
        HookResult {
            injected_context: Some("First".to_string()),
            ..HookResult::default()
        },
    );
    assert_eq!(combined.injected_context, Some("First".to_string()));

    merge_result(
        &mut combined,
        HookResult {
            injected_context: Some("Second".to_string()),
            ..HookResult::default()
        },
    );
    assert_eq!(combined.injected_context, Some("First\nSecond".to_string()));
}

#[test]
fn test_merge_result_metadata_deep_merge() {
    let mut combined = HookResult {
        metadata: Some(doc(r#"{"a": 1, "b": 2}"#)),
        ..HookResult::default()
    };
    merge_result(
        &mut combined,
        HookResult {
            metadata: Some(doc(r#"{"b": 3, "c": 4}"#)),
            ..HookResult::default()
        },
    );
    let meta = combined.metadata.unwrap();
    assert_eq!(print(meta.get("a").unwrap()), "1");
    assert_eq!(print(meta.get("b").unwrap()), "3"); // overwritten
    assert_eq!(print(meta.get("c").unwrap()), "4");
}

#[test]
fn test_merge_result_permission_mode_override_last_wins() {
    let mut combined = HookResult {
        permission_mode_override: Some(PermissionMode::Auto),
        ..HookResult::default()
    };
    merge_result(
        &mut combined,
        HookResult {
            permission_mode_override: Some(PermissionMode::Plan),
            ..HookResult::default()
        },
    );
    assert_eq!(
        combined.permission_mode_override,
        Some(PermissionMode::Plan)
    );

    merge_result(
        &mut combined,
        HookResult {
            permission_mode_override: None,
            ..HookResult::default()
        },
    );
    assert_eq!(
        combined.permission_mode_override,
        Some(PermissionMode::Plan)
    );
}

#[test]
fn test_merge_result_retry_or_semantics() {
    let mut combined = HookResult::default();
    assert!(!combined.retry);

    merge_result(
        &mut combined,
        HookResult {
            retry: true,
            ..HookResult::default()
        },
    );
    assert!(combined.retry);

    // Once true, stays true even if incoming is false
    merge_result(
        &mut combined,
        HookResult {
            retry: false,
            ..HookResult::default()
        },
    );
    assert!(combined.retry);
}

#[test]
fn test_hook_registry_empty() {
    let registry = HookRegistry::new();
    assert!(registry.is_empty());
}

#[test]
fn test_hook_registry_register_skill() {
    let mut registry = HookRegistry::new();
    let mut def = HooksDefinition::default();
    def.add_rules(
        HookEvent::PreToolUse,
        vec![HookRule {
            matcher: "Bash".into(),
            hooks: vec![HookAction::Prompt {
                prompt: "test".into(),
            }],
        }],
    );
    registry.register("test-skill", "/tmp/test", def);
    assert!(!registry.is_empty());
}

#[test]
fn test_hook_registry_register_user_hooks() {
    let mut registry = HookRegistry::new();
    let mut def = HooksDefinition::default();
    def.add_rules(
        HookEvent::Stop,
        vec![HookRule {
            matcher: String::new(),
            hooks: vec![HookAction::Prompt {
                prompt: "Don't stop".into(),
            }],
        }],
    );
    registry.register_user_hooks(def);
    assert!(!registry.is_empty());
    assert!(registry.has_hooks_for(HookEvent::Stop));
    assert!(!registry.has_hooks_for(HookEvent::PreToolUse));
}

#[test]
fn test_hook_registry_unregister() {
    let mut registry = HookRegistry::new();
    let mut def = HooksDefinition::default();
    def.add_rules(
        HookEvent::PreToolUse,
        vec![HookRule {
            matcher: "Bash".into(),
            hooks: vec![HookAction::Prompt {
                prompt: "test".into(),
            }],
        }],
    );
    registry.register("test-skill", "/tmp/test", def);
    assert!(!registry.is_empty());

    let removed = registry.unregister(&HookSource::Skill("test-skill".to_string()));
    assert!(removed);
    assert!(registry.is_empty());
}

#[test]
fn test_hook_registry_no_match() {
    let mut registry = HookRegistry::new();
    let mut def = HooksDefinition::default();
    def.add_rules(
        HookEvent::PreToolUse,
        vec![HookRule {
            matcher: "Write".into(),
            hooks: vec![HookAction::Prompt {
                prompt: "check".into(),
            }],
        }],
    );
    registry.register("test", "/tmp", def);

    let result = run_pre_tool_use(&registry, "Read", &doc(r#"{}"#), "");
    assert!(result.messages.is_empty());
}

#[test]
fn test_hook_registry_prompt_match() {
    let mut registry = HookRegistry::new();
    let mut def = HooksDefinition::default();
    def.add_rules(
        HookEvent::PreToolUse,
        vec![HookRule {
            matcher: "Bash".into(),
            hooks: vec![HookAction::Prompt {
                prompt: "Verify the command is safe".into(),
            }],
        }],
    );
    registry.register("security", "/tmp", def);

    let result = run_pre_tool_use(&registry, "Bash", &doc(r#"{"command": "ls"}"#), "");
    assert_eq!(result.messages.len(), 1);
    assert_eq!(result.messages[0], "Verify the command is safe");
}

#[test]
fn test_hook_registry_lifecycle_hooks() {
    let mut registry = HookRegistry::new();
    let mut def = HooksDefinition::default();
    def.add_rules(
        HookEvent::SessionStart,
        vec![HookRule {
            matcher: "startup".into(),
            hooks: vec![HookAction::Prompt {
                prompt: "Welcome!".into(),
            }],
        }],
    );
    registry.register("test", "/tmp", def);

    let ctx = HookContext::for_session_start("startup", "sess-1", "agent");
    let result = run(&registry, &ctx);
    assert_eq!(result.messages.len(), 1);
    assert_eq!(result.messages[0], "Welcome!");

    // Non-matching matcher
    let ctx = HookContext::for_session_start("resume", "sess-1", "agent");
    let result = run(&registry, &ctx);
    assert!(result.messages.is_empty());
}

#[test]
fn test_hook_registry_user_config_priority() {
    let mut registry = HookRegistry::new();

    // Register skill hook first
    let mut skill_def = HooksDefinition::default();
    skill_def.add_rules(
        HookEvent::PreToolUse,
        vec![HookRule {
            matcher: "Bash".into(),
            hooks: vec![HookAction::Prompt {
                prompt: "from-skill".into(),
            }],
        }],
    );
    registry.register("z-skill", "/tmp", skill_def);

    // Register user config
    let mut user_def = HooksDefinition::default();
    user_def.add_rules(
        HookEvent::PreToolUse,
        vec![HookRule {
            matcher: "Bash".into(),
            hooks: vec![HookAction::Prompt {
                prompt: "from-user".into(),
            }],
        }],
    );
    registry.register_user_hooks(user_def);

    let result = run_pre_tool_use(&registry, "Bash", &doc(r#"{}"#), "");
    // User config runs first, then skill
    assert_eq!(result.messages, vec!["from-user", "from-skill"]);
}

#[test]
fn test_hook_registry_runs_in_deterministic_skill_name_order() {
    let mut registry = HookRegistry::new();
    let mut z_def = HooksDefinition::default();
    z_def.add_rules(
        HookEvent::PreToolUse,
        vec![HookRule {
            matcher: "Bash".into(),
            hooks: vec![HookAction::Prompt {
                prompt: "from-z".into(),
            }],
        }],
    );
    registry.register("z-skill", "/tmp", z_def);

    let mut a_def = HooksDefinition::default();
    a_def.add_rules(
        HookEvent::PreToolUse,
        vec![HookRule {
            matcher: "Bash".into(),
            hooks: vec![HookAction::Prompt {
                prompt: "from-a".into(),
            }],
        }],
    );
    registry.register("a-skill", "/tmp", a_def);

    let result = run_pre_tool_use(&registry, "Bash", &doc(r#"{"command": "ls"}"#), "");
    assert_eq!(result.messages, vec!["from-a", "from-z"]);
}

#[test]
fn test_matches_tool_name_glob() {
    assert!(matches_tool_name("Bash(*)", "Bash(git:*)"));
    assert!(matches_tool_name("Bash", "Bash(git:*)"));
    assert!(matches_tool_name("*", "Read"));
    assert!(!matches_tool_name("Bash", "Read"));
    assert!(!matches_tool_name("Write", "Bash(git:*)"));
}

#[test]
fn test_hook_action_validate_command_ok() {
    let action = HookAction::Command {
        command: "echo hello".into(),
        shell: None,
        timeout: 10,
    };
    assert!(action.validate().is_ok());
}

#[test]
fn test_hook_action_validate_command_empty() {
    let action = HookAction::Command {
        command: "".into(),
        shell: None,
        timeout: 10,
    };
    assert!(action.validate().is_err());
}

#[test]
fn test_hook_action_validate_command_timeout_exceeds_max() {
    let action = HookAction::Command {
        command: "echo hi".into(),
        shell: None,
        timeout: 99999,
    };
    assert!(action.validate().is_err());
}

#[test]
fn test_hook_action_validate_prompt_empty() {
    let action = HookAction::Prompt { prompt: "".into() };
    assert!(action.validate().is_err());
}

#[test]
fn test_hook_action_validate_permission_invalid() {
    let action = HookAction::Permission {
        decision: "maybe".into(),
        reason: None,
        suggestions: vec![],
    };
    assert!(action.validate().is_err());
}

#[test]
fn test_hook_action_validate_permission_valid() {
    for dec in &["allow", "deny", "ask"] {
        let action = HookAction::Permission {
            decision: (*dec).into(),
            reason: None,
            suggestions: vec![],
        };
        assert!(
            action.validate().is_ok(),
            "decision '{}' should be valid",
            dec
        );
    }
}

#[test]
fn test_hook_action_validate_http_empty_url() {
    let action = HookAction::Http {
        url: "".into(),
        method: None,
        headers: None,
        timeout: 10,
    };
    assert!(action.validate().is_err());
}

#[test]
fn test_hook_action_validate_http_timeout_exceeds_max() {
    let action = HookAction::Http {
        url: "https://example.com".into(),
        method: None,
        headers: None,
        timeout: 99999,
    };
    assert!(action.validate().is_err());
}

#[test]
fn test_hook_action_validate_mcp_empty_server() {
    let action = HookAction::McpTool {
        server: "".into(),
        tool: "send".into(),
        arguments: None,
        timeout: 10,
    };
    assert!(action.validate().is_err());
}

#[test]
fn test_hook_action_validate_mcp_timeout_exceeds_max() {
    let action = HookAction::McpTool {
        server: "s".into(),
        tool: "t".into(),
        arguments: None,
        timeout: 99999,
    };
    assert!(action.validate().is_err());
}

#[test]
fn test_hook_context_serialization() {
    let ctx = HookContext::for_pre_tool_use("Bash", &doc(r#"{"command": "ls"}"#), "sess-1", "agent");
    let json_str = print(&context_json(&ctx));
    assert!(json_str.contains("\"event\":\"PreToolUse\""));
    assert!(json_str.contains("\"tool_name\":\"Bash\""));
    // None fields should be omitted
    assert!(!json_str.contains("\"tool_output\""));
    assert!(!json_str.contains("\"matcher\""));
}

#[test]
fn hook_input_names_the_event_twice() {
    let stats = CompressHookStats {
        before_count: 9,
        after_count: 4,
        before_tokens: 900,
        after_tokens: 18446744073709551615,
    };
    let ctx = HookContext::for_pre_compact(&stats, "auto", "sess-1", "agent").with_cwd("/work");
    let read = doc(&hook_input(&ctx));
    assert_eq!(read.get_str("event").unwrap(), "PreCompact");
    assert_eq!(read.get_str("hook_event_name").unwrap(), "PreCompact");
    assert_eq!(read.get_str("cwd").unwrap(), "/work");
    assert_eq!(read.get_str("matcher").unwrap(), "auto");
    assert_eq!(
        print(read.get("compress_stats").unwrap()),
        r#"{"after_count":4,"after_tokens":18446744073709551615,"before_count":9,"before_tokens":900}"#
    );
}

#[test]
fn hook_input_lists_tool_names() {
    let names = vec!["Bash".to_string(), "Read".to_string()];
    let ctx = HookContext::for_post_tool_batch(&names, 1, 2, "s", "a").with_cwd("/");
    let read = context_json(&ctx);
    assert_eq!(print(read.get("batch_tool_names").unwrap()), r#"["Bash","Read"]"#);
    assert_eq!(print(read.get("batch_success_count").unwrap()), "1");
    assert_eq!(print(read.get("batch_failure_count").unwrap()), "2");
    assert!(read.get("stop_hook_active").is_none());
}

#[test]
fn unknown_event_names_are_refused() {
    assert!(event_named("PreToolUse ").is_none());
    assert!(event_named("preToolUse").is_none());
    assert!(event_named("RulePromoted") == Some(HookEvent::RulePromoted));
}

#[test]
fn a_neutral_result_changes_nothing() {
    let mut combined = HookResult::deny("no".to_string());
    combined.messages.push("kept".to_string());
    merge_result(&mut combined, HookResult::default());
    assert!(combined.block);
    assert_eq!(combined.block_reason.as_deref(), Some("no"));
    assert_eq!(combined.messages, vec!["kept".to_string()]);
    assert!(combined.permission_decision.unwrap().is_denied());
}

#[test]
fn a_blocking_hook_ends_the_run() {
    let mut registry = HookRegistry::new();
    let mut def = HooksDefinition::default();
    def.add_rules(
        HookEvent::PreToolUse,
        vec![HookRule {
            matcher: "*".into(),
            hooks: vec![
                HookAction::Permission {
                    decision: "deny".into(),
                    reason: Some("never".into()),
                    suggestions: vec![],
                },
                HookAction::Prompt { prompt: "unreached".into() },
            ],
        }],
    );
    registry.register("guard", "/tmp", def);
    let result = run_pre_tool_use(&registry, "Bash", &doc("{}"), "");
    assert!(result.block);
    assert_eq!(result.block_reason.as_deref(), Some("never"));
    assert!(result.messages.is_empty());
}

#[test]
fn plugins_run_between_the_user_and_the_skills() {
    let mut registry = HookRegistry::new();
    for source in ["skill", "plugin", "user"] {
        let mut def = HooksDefinition::default();
        def.add_rules(
            HookEvent::PreToolUse,
            vec![HookRule {
                matcher: "Bash".into(),
                hooks: vec![HookAction::Prompt { prompt: source.to_string() }],
            }],
        );
        match source {
            "skill" => registry.register("a-skill", "/s", def),
            "plugin" => registry.register_plugin("z-plugin", "/p", def),
            _ => registry.register_user_hooks(def),
        }
    }
    let result = run_pre_tool_use(&registry, "Bash", &doc("{}"), "");
    assert_eq!(result.messages, vec!["user", "plugin", "skill"]);
    assert!(registry.clear_user_hooks());
    assert!(!registry.clear_user_hooks());
    assert!(registry.unregister(&HookSource::Plugin("z-plugin".to_string())));
    let result = run_pre_tool_use(&registry, "Bash", &doc("{}"), "");
    assert_eq!(result.messages, vec!["skill"]);
}

#[test]
fn sources_are_labelled_and_counted() {
    let mut registry = HookRegistry::new();
    let mut def = HooksDefinition::default();
    def.add_rules(
        HookEvent::Stop,
        vec![HookRule { matcher: String::new(), hooks: vec![] }],
    );
    registry.register("lint", "/tmp", def);
    registry.register_user_hooks(HooksDefinition::default());
    assert_eq!(registry.list_sources(), vec![("skill:lint".to_string(), 1)]);
}

#[test]
fn commands_are_prepared_for_their_directory() {
    let action = HookAction::Command { command: "ls".into(), shell: None, timeout: 5 };
    match begin_action(&action, "/skills/lint", false) {
        ActionStep::Run { command, shell, timeout } => {
            assert_eq!(command, "ls");
            assert!(shell.is_none());
            assert_eq!(timeout, 5);
        }
        _ => panic!("a command runs"),
    }
    let call = HookAction::McpTool {
        server: "slack".into(),
        tool: "send".into(),
        arguments: None,
        timeout: 5,
    };
    assert!(matches!(begin_action(&call, "/", true), ActionStep::Call { .. }));
    assert!(matches!(begin_action(&call, "/", false), ActionStep::Done(_)));
}

#[test]
fn subagent_names_are_matched() {
    let ctx = HookContext::for_subagent_start("coder", "sync", "implement X", "", "");
    assert!(matches_hook("coder", &ctx));
    assert!(matches_hook("*", &ctx));
    assert!(matches_hook("", &ctx));
    assert!(!matches_hook("planner", &ctx));
    assert!(matches_hook("planner|coder|tester", &ctx));
    let ctx = HookContext::for_subagent_start("code-planner", "sync", "plan", "", "");
    assert!(matches_hook("code*", &ctx));
    assert!(!matches_hook("test*", &ctx));
}

#[test]
fn faulty_actions_are_left_out() {
    let mut def = HooksDefinition::default();
    def.add_rules(
        HookEvent::Stop,
        vec![HookRule {
            matcher: "*".into(),
            hooks: vec![
                HookAction::Prompt { prompt: "".into() },
                HookAction::Prompt { prompt: "kept".into() },
                HookAction::Command { command: "ls".into(), shell: None, timeout: 99999 },
            ],
        }],
    );
    let rules = def.rules_for(HookEvent::Stop);
    assert_eq!(rules.len(), 1);
    assert_eq!(rules[0].matcher, "*");
    assert_eq!(rules[0].hooks.len(), 1);
    assert!(matches!(&rules[0].hooks[0], HookAction::Prompt { prompt } if prompt == "kept"));
}
