use echo_agent::capabilities::{ModelProfile, ProviderCapabilities};
use echo_agent::compression::{
    can_extract, extract_json_from_text, normalize_path, summary_message, CanonicalContext,
    CompressionCheckpoint, StructuredSummary,
};
use echo_agent::guard::{combine_reports, GuardDirection, GuardReport, GuardResult};
use echo_agent::json::{parse, print};
use echo_agent::paths::{
    file_name_of, is_path_traversal_safe, is_within, join_path, parent_of, root_agent_dir,
    root_agent_file,
};
use echo_agent::patterns::{matches_hint, matches_name, matches_tool_name, tool_matcher};
use echo_agent::risk::{ToolRiskCategory, ToolRiskClassifier};
use echo_agent::shell::{build_shell_command, Platform};
use echo_agent::table::Table;
use echo_agent::text::{
    byte_count, fit_bytes, joined, lines_of, number, number_signed, replaced, split_on, trimmed,
    words_of,
};
use echo_agent::yaml;

fn texts(list: &[&str]) -> Vec<String> {
    list.iter().map(|s| s.to_string()).collect()
}

#[test]
fn texts_are_taken_apart_and_put_together() {
    assert_eq!(trimmed(" \t a b\u{3000}\n"), "a b");
    assert_eq!(split_on("a|b||c", '|'), texts(&["a", "b", "", "c"]));
    assert_eq!(words_of("  a \n b "), texts(&["a", "b"]));
    assert_eq!(lines_of("a\r\nb\n\nc"), texts(&["a", "b", "", "c"]));
    assert_eq!(joined(&texts(&["a", "b"]), ", "), "a, b");
    assert_eq!(replaced("aaa", "aa", "b"), "ba");
    assert_eq!(number(1050), "1050");
    assert_eq!(number_signed(-2147483648), "-2147483648");
    assert_eq!(byte_count("a€"), 4);
}

#[test]
fn texts_are_cut_between_characters() {
    assert_eq!(fit_bytes("a€b", 3), ("a".to_string(), true));
    assert_eq!(fit_bytes("a€b", 4), ("a€".to_string(), true));
    assert_eq!(fit_bytes("a€b", 5), ("a€b".to_string(), false));
}

#[test]
fn tables_hold_one_value_for_a_key() {
    let mut table: Table<u8> = Table::new();
    assert_eq!(table.insert("b".to_string(), 1), None);
    assert_eq!(table.insert("a".to_string(), 2), None);
    assert_eq!(table.insert("b".to_string(), 3), Some(1));
    assert_eq!(table.get("b"), Some(&3));
    assert_eq!(table.sorted_keys(), texts(&["a", "b"]));
    assert_eq!(table.remove("b"), Some(3));
    assert!(!table.contains_key("b"));
    assert_eq!(table.len(), 1);
}

#[test]
fn json_is_read_and_written() {
    let value = parse(r#"{"b": [1, -2.50, null], "a": {"t": true}}"#).unwrap();
    assert_eq!(print(&value), r#"{"a":{"t":true},"b":[1,-2.5,null]}"#);
    assert!(parse("{").is_none());
    assert!(value.get("a").unwrap().field_is("t", true));
    assert_eq!(print(&value.copy()), print(&value));
}

#[test]
fn yaml_is_read_and_written() {
    let value = yaml::parse("a: 1\nb:\n- x\n- true\n").unwrap();
    assert_eq!(yaml::print(&value).unwrap(), "a: 1\nb:\n- x\n- true\n");
    assert_eq!(yaml::print(&value.copy()).unwrap(), "a: 1\nb:\n- x\n- true\n");
    assert!(yaml::parse("a: [").is_err());
}

#[test]
fn paths_are_joined_and_compared() {
    assert_eq!(join_path("/a", "b/c"), "/a/b/c");
    assert_eq!(join_path("/a", "/b"), "/b");
    assert_eq!(parent_of("/a/b").as_deref(), Some("/a"));
    assert_eq!(file_name_of("/a/b.md").as_deref(), Some("b.md"));
    assert!(is_path_traversal_safe("scripts/run.py"));
    assert!(!is_path_traversal_safe("../run.py"));
    assert!(is_within("/a/b", "/a"));
    assert!(!is_within("/ab", "/a"));
    assert_eq!(root_agent_dir(Some("~/agent"), Some("/home/u")), "/home/u/agent");
    assert_eq!(root_agent_file(Some("/x"), None, "f.yaml"), "/x/f.yaml");
}

#[test]
fn names_match_patterns() {
    assert!(matches_name("Bash", "Bash"));
    assert!(matches_name("Bash", "Bash(git:*)"));
    assert!(!matches_name("Bash", "Bashful"));
    assert!(matches_tool_name("Read|Bash(*)", "Bash(ls)"));
    assert!(tool_matcher("mcp_*", "mcp_slack"));
    assert!(matches_hint("permission*", "permission_prompt"));
    assert!(!matches_hint("permission", "permission_prompt"));
}

#[test]
fn shells_follow_the_platform() {
    let linux = Platform { windows: false, has_pwsh: false, git_bash: None };
    let command = build_shell_command("ls", None, &linux);
    assert_eq!(command.program, "bash");
    assert_eq!(command.args, texts(&["-c", "ls"]));
    let windows = Platform { windows: true, has_pwsh: true, git_bash: None };
    assert_eq!(build_shell_command("ls", None, &windows).args, texts(&["/C", "ls"]));
    assert_eq!(build_shell_command("ls", Some("powershell"), &windows).program, "pwsh");
}

#[test]
fn risky_calls_are_noticed() {
    let none = parse("{}").unwrap();
    assert!(ToolRiskClassifier::classify("rm") == ToolRiskCategory::Destructive);
    assert!(ToolRiskClassifier::classify("grep") == ToolRiskCategory::ReadOnly);
    assert_eq!(ToolRiskClassifier::safety_notice("grep", &none), "");
    let edit = parse(r#"{"path": "/a.txt"}"#).unwrap();
    assert!(ToolRiskClassifier::safety_notice("edit_file", &edit).contains("/a.txt"));
    assert!(ToolRiskCategory::Destructive.level() > ToolRiskCategory::ReadOnly.level());
}

#[test]
fn the_first_guard_that_blocks_decides() {
    let report = |guard: &str, outcome: Result<GuardResult, String>| GuardReport {
        guard: guard.to_string(),
        outcome,
    };
    assert!(matches!(combine_reports(vec![]), GuardResult::Pass));
    let warned = combine_reports(vec![
        report("a", Ok(GuardResult::Warn { reasons: texts(&["w"]) })),
        report("b", Err("down".to_string())),
    ]);
    match warned {
        GuardResult::Warn { reasons } => assert_eq!(reasons, texts(&["w", "b error: down"])),
        _ => panic!("warnings are kept"),
    }
    let blocked = combine_reports(vec![
        report("a", Ok(GuardResult::Pass)),
        report("b", Ok(GuardResult::Block { reason: "first".to_string() })),
        report("c", Ok(GuardResult::Block { reason: "second".to_string() })),
    ]);
    assert!(blocked.is_blocked());
    assert!(matches!(blocked, GuardResult::Block { reason } if reason == "first"));
    assert_eq!(GuardDirection::Input.label(), "input");
}

#[test]
fn summaries_are_merged() {
    let mut earlier = StructuredSummary::default();
    earlier.goal = "g".to_string();
    earlier.pending_tasks = texts(&["t1", "t2"]);
    earlier.files_touched = texts(&["src/a.rs"]);
    let mut newer = StructuredSummary::default();
    newer.completed_actions = texts(&["t1"]);
    newer.pending_tasks = texts(&["t3"]);
    newer.files_touched = texts(&["./src/a.rs"]);
    earlier.merge_with(&newer);
    assert_eq!(earlier.goal, "g");
    assert_eq!(earlier.completed_actions, texts(&["t1"]));
    assert_eq!(earlier.pending_tasks, texts(&["t2", "t3"]));
    assert_eq!(earlier.files_touched, vec![normalize_path("src/a.rs")]);
}

#[test]
fn merging_twice_changes_nothing() {
    let mut summary = StructuredSummary::default();
    summary.pending_tasks = texts(&["t1", "t2", "t2"]);
    summary.errors = texts(&["e1"]);
    let mut newer = StructuredSummary::default();
    newer.goal = "g".to_string();
    newer.completed_actions = texts(&["t1", "t4"]);
    newer.pending_tasks = texts(&["t3", "t4", "t3"]);
    newer.files_touched = texts(&[" ./a.rs", "b.rs"]);
    newer.errors = texts(&["e2", "e1"]);
    summary.merge_with(&newer);
    summary.merge_with(&newer);
    assert_eq!(summary.goal, "g");
    assert_eq!(summary.completed_actions, texts(&["t1", "t4"]));
    assert_eq!(summary.pending_tasks, texts(&["t2", "t2", "t3"]));
    assert_eq!(summary.files_touched, texts(&["a.rs", "b.rs"]));
    assert_eq!(summary.errors, texts(&["e1", "e2"]));
}

#[test]
fn json_is_found_in_answers() {
    assert_eq!(
        extract_json_from_text("x\n```json\n{\"a\": 1}\n```\ny").as_deref(),
        Some("{\"a\": 1}")
    );
    assert_eq!(
        extract_json_from_text("so {\"goal\": \"g\"} it is").as_deref(),
        Some("{\"goal\": \"g\"}")
    );
    assert_eq!(extract_json_from_text("nothing"), None);
    assert!(can_extract("nothing"));
    assert!(!can_extract("} backwards {"));
    assert!(summary_message("{}").contains("{}"));
}

#[test]
fn contexts_are_put_back() {
    let mut context = CanonicalContext::default();
    assert!(!context.has_any());
    assert!(context.to_reinjection_messages().is_none());
    context.project_rules = Some("rules".to_string());
    assert!(context.has_any());
    assert!(context.to_reinjection_messages().unwrap().iter().any(|m| m.contains("rules")));
}

#[test]
fn long_texts_are_put_back_whole() {
    let mut context = CanonicalContext::default();
    let prompt = "é".repeat(5_000);
    let rules = "r".repeat(3_000);
    context.system_prompt = Some(prompt.clone());
    context.project_rules = Some(rules.clone());
    context.active_skill_names = texts(&["a", "b"]);
    let messages = context.to_reinjection_messages().unwrap();
    assert_eq!(
        messages,
        vec![
            format!("[Canonical context — system prompt restored after compression]:\n{prompt}"),
            format!("[Canonical context — project rules restored]:\n{rules}"),
            "[Canonical context — active skills]: a, b".to_string(),
        ]
    );
}

#[test]
fn checkpoints_carry_their_numbers() {
    let point = CompressionCheckpoint::new("window")
        .with_covered_range(1, 5)
        .with_tokens(900, 300)
        .with_counts(4, 6)
        .with_summary("s");
    assert_eq!(point.strategy, "window");
    assert_eq!(point.covered_range, Some((1, 5)));
    assert_eq!((point.token_before, point.token_after), (900, 300));
    assert_eq!((point.retained_count, point.evicted_count), (4, 6));
    assert!(point.created_at.contains('T'));
    assert_ne!(point.checkpoint_id, CompressionCheckpoint::new("window").checkpoint_id);
}

#[test]
fn models_have_profiles() {
    let gpt = ModelProfile::from_provider_name("GPT-4.5-preview", "openai");
    assert_eq!(gpt.max_context_tokens, Some(128_000));
    assert_eq!(gpt.tokenizer_name, Some("o200k_base"));
    assert!(gpt.supports_streaming);
    let qwen = ModelProfile::from_provider_name("qwen3-235b-a22b", "dashscope");
    assert_eq!(qwen.max_output_tokens, Some(131_072));
    let local = ProviderCapabilities::from_provider_name("ollama");
    assert!(local == ProviderCapabilities::ollama());
    assert!(local.ndjson_streaming);
    assert_eq!(ProviderCapabilities::anthropic().max_context_tokens, Some(200_000));
}

#[test]
fn a_prefix_tells_models_of_anthropic() {
    let open = ProviderCapabilities::openai_compatible();
    let own = ModelProfile::new_in_family("Verse-3-Long", "proxy", open, "verse-");
    assert_eq!(own.max_context_tokens, Some(200_000));
    assert_eq!(own.max_output_tokens, Some(8_192));
    assert_eq!(own.model_name, "Verse-3-Long");
    let other = ModelProfile::new_in_family("gpt-4o", "proxy", open, "verse-");
    assert_eq!(other.max_context_tokens, Some(8_192));
    assert_eq!(other.max_output_tokens, None);
    let unknown = ModelProfile::new("verse-3-long", "proxy", open);
    assert_eq!(unknown.max_context_tokens, None);
    assert_eq!(unknown.max_output_tokens, None);
    let named = ProviderCapabilities::anthropic_with_tokenizer("verse");
    let profile = ModelProfile::new_in_family("verse-3-long", "anthropic", named, "verse-");
    assert_eq!(profile.tokenizer_name, Some("verse"));
    assert!(named.named_sse_events && named.system_as_top_level);
}
