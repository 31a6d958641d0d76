use echo_agent::json::{parse, print};
use echo_agent::tools::{
    ran_too_long, AttemptStep, ParamValue, ToolCallParams, ToolDefinition, ToolExecutionConfig,
    ToolInfo, ToolManager, ToolResult, ToolRiskLevel, CACHE_LIFETIME_MS,
};

fn tool(name: &str, streaming: bool) -> ToolInfo {
    ToolInfo {
        definition: ToolDefinition {
            name: name.to_string(),
            description: format!("the tool {name}"),
            parameters: parse("{}").unwrap(),
        },
        supports_streaming: streaming,
    }
}

#[test]
fn tools_are_registered_and_removed() {
    let mut manager = ToolManager::new();
    let a = manager.register(tool("read_file", false));
    manager.register_tools(vec![tool("shell", true)]);
    let mut names = manager.list_tools();
    names.sort();
    assert_eq!(names, vec!["read_file", "shell"]);
    assert_eq!(manager.get_tool("read_file"), Some(a));
    assert!(manager.supports_streaming("shell"));
    assert!(!manager.supports_streaming("read_file"));
    assert_eq!(manager.get_tool_definitions().len(), 2);
    assert_eq!(manager.get_openai_tools().len(), 2);
    assert_eq!(manager.unregister("read_file"), Some(a));
    assert_eq!(manager.unregister("read_file"), None);
    assert!(manager.tool_to_run("read_file").is_err());
    assert_eq!(manager.get_openai_tools().len(), 1);
    assert_eq!(manager.info("shell").unwrap().definition.description, "the tool shell");
}

#[test]
fn a_tool_of_the_same_name_replaces_the_first() {
    let mut manager = ToolManager::new();
    let first = manager.register(tool("t", false));
    let second = manager.register(tool("t", true));
    assert_ne!(first, second);
    assert_eq!(manager.get_tool("t"), Some(second));
    assert!(manager.supports_streaming("t"));
    assert_eq!(manager.list_tools().len(), 1);
}

#[test]
fn results_of_reads_are_kept_for_a_while() {
    let mut manager = ToolManager::new();
    manager.register(tool("read_file", false));
    manager.register(tool("write_file", false));
    manager.begin_run("read_file");
    manager.keep_result("read_file", "{}", ToolResult::success("text"), 1_000);
    assert_eq!(manager.cached_result("read_file", "{}", 1_001).unwrap().output, "text");
    assert!(manager.cached_result("read_file", "{\"a\":1}", 1_001).is_none());
    assert!(manager
        .cached_result("read_file", "{}", 1_000 + CACHE_LIFETIME_MS + 1)
        .is_none());
    manager.begin_run("write_file");
    assert!(manager.cached_result("read_file", "{}", 1_001).is_none());
}

#[test]
fn delays_double() {
    let manager = ToolManager::new_with_config(ToolExecutionConfig {
        timeout_ms: 1_000,
        retry_on_fail: true,
        max_retries: 2,
        retry_delay_ms: 100,
        max_concurrency: Some(4),
        max_read_concurrency: None,
    });
    assert!(matches!(manager.after_attempt(0, true), AttemptStep::Finish));
    let mut delays = vec![];
    let mut attempt = 0;
    while let AttemptStep::Retry { attempt: next, delay_ms } = manager.after_attempt(attempt, false) {
        delays.push(delay_ms);
        attempt = next;
    }
    assert_eq!(delays.len(), 2);
    assert_eq!(delays[1], delays[0] * 2);
    assert_eq!(manager.max_concurrency(), Some(4));
    assert_eq!(manager.limits(), (Some(4), None));
    assert_eq!(manager.limit_for("shell"), Some(4));
    assert_eq!(manager.limit_for("read_file"), None);
    assert_eq!(manager.config().retry_delay_ms, 100);
}

#[test]
fn a_manager_without_retries_finishes() {
    let mut config = ToolExecutionConfig::default();
    config.retry_on_fail = false;
    let manager = ToolManager::new_with_config(config);
    assert!(matches!(manager.after_attempt(0, false), AttemptStep::Finish));
    assert!(ran_too_long("slow").message().contains("slow"));
}

#[test]
fn parameters_are_checked() {
    let params = ToolCallParams::from_value(&parse(r#"{"s": "x", "n": 4, "b": true}"#).unwrap());
    assert_eq!(params.len(), 3);
    assert!(!params.is_empty());
    assert_eq!(params.get_bool("b"), Some(true));
    assert_eq!(params.get_number("n").unwrap().to_string(), "4");
    assert!(params.validate_required("s", "string").is_ok());
    assert!(params.validate_required("s", "number").is_err());
    assert!(params.validate_required("missing", "string").is_err());
    assert_eq!(ParamValue::from_json(&parse("[1]").unwrap()).kind_name(), "array");
    assert_eq!(print(params.raw()), r#"{"b":true,"n":4,"s":"x"}"#);
}

#[test]
fn results_carry_their_details() {
    let result = ToolResult::error("bad")
        .with_output("partial")
        .with_truncated(true)
        .with_mime_type("text/plain")
        .with_meta("k", "v".to_string())
        .with_bytes(vec![1, 2]);
    assert!(!result.success);
    assert_eq!(result.error.as_deref(), Some("bad"));
    assert_eq!(result.output, "partial");
    assert!(result.truncated);
    assert_eq!(result.metadata.get("k").map(|v| v.as_str()), Some("v"));
    assert_eq!(ToolResult::binary(vec![9]).bytes, Some(vec![9]));
    assert!(!ToolRiskLevel::Dangerous.capability_description().is_empty());
}

#[test]
fn results_of_a_replaced_tool_are_forgotten() {
    let mut manager = ToolManager::default();
    for name in ["read_file", "list_dir"] {
        manager.register(tool(name, false));
        manager.keep_result(name, "{}", ToolResult::success("old"), 5);
    }
    manager.register(tool("read_file", true));
    assert!(manager.cached_result("read_file", "{}", 6).is_none());
    assert_eq!(manager.cached_result("list_dir", "{}", 6).unwrap().output, "old");
    manager.register_tools(vec![tool("list_dir", false)]);
    assert!(manager.cached_result("list_dir", "{}", 6).is_none());
}

#[test]
fn a_success_asks_for_no_delay() {
    let mut config = ToolExecutionConfig::default();
    config.retry_on_fail = true;
    config.retry_delay_ms = u64::MAX;
    let manager = ToolManager::new_with_config(config);
    assert!(matches!(manager.after_attempt(1, true), AttemptStep::Finish));
}
