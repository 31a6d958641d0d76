use echo_agent::agent::{
    delegation_unsupported, AgentFactoryConfig, DefaultAgentFactory, InterventionResult,
};
use echo_agent::error::{MemoryError, ReactError};
use echo_agent::json::{parse, print};
use echo_agent::memory::{
    check_search_mode, MemoryFacts, MemoryRisk, MemorySource, MemoryStatus, MemoryType,
    SearchMode, SearchQuery, StoreItem,
};

#[test]
fn test_factory_config_new() {
    let config = AgentFactoryConfig::<u8>::new();
    assert_eq!(config.model_name(), "");
    assert_eq!(config.agent_name(), "assistant");
    assert_eq!(config.system_prompt(), "You are a helpful assistant");
}

#[test]
fn test_factory_config_builder() {
    let config = AgentFactoryConfig::<u8>::new()
        .model("qwen3-max")
        .name("my-agent")
        .with_system_prompt("You are a coder");

    assert_eq!(config.model_name(), "qwen3-max");
    assert_eq!(config.agent_name(), "my-agent");
    assert_eq!(config.system_prompt(), "You are a coder");
}

#[test]
fn test_factory_config_default() {
    let config = AgentFactoryConfig::<u8>::default();
    assert_eq!(config.agent_name(), "assistant");
}

#[test]
fn test_intervention_result_allow() {
    let result = InterventionResult::allow();
    assert!(!result.block);
    assert!(!result.cancel);
    assert!(result.block_reason.is_none());
    assert!(result.injected_context.is_none());
}

#[test]
fn test_intervention_result_block() {
    let result = InterventionResult::block("dangerous operation");
    assert!(result.block);
    assert_eq!(result.block_reason.as_deref(), Some("dangerous operation"));
    assert!(!result.cancel);
}

#[test]
fn test_intervention_result_inject() {
    let result = InterventionResult::inject("additional context");
    assert!(result.injected_context.is_some());
    assert!(!result.block);
}

#[test]
fn test_intervention_result_cancel() {
    let result = InterventionResult::cancel();
    assert!(result.cancel);
    assert!(!result.block);
}

#[test]
fn tools_are_kept_in_order() {
    let config = AgentFactoryConfig::new().tool(1u8).tools(vec![2, 3]);
    assert_eq!(config.tool_count(), 3);
    assert_eq!(config.into_tools(), vec![1, 2, 3]);
}

#[test]
fn the_default_factory_builds_nothing() {
    let made: Result<u8, ReactError> =
        DefaultAgentFactory.create_agent(AgentFactoryConfig::<u8>::new());
    assert!(made.is_err());
    assert!(!delegation_unsupported().message().is_empty());
}

#[test]
fn arguments_are_replaced() {
    let result = InterventionResult::modify_args(parse(r#"{"a":1}"#).unwrap());
    assert_eq!(print(&result.modified_args.unwrap()), r#"{"a":1}"#);
    assert!(!result.block);
}

fn facts(kind: MemoryType) -> MemoryFacts {
    MemoryFacts::new(kind, MemorySource::ExplicitSave, "style")
}

#[test]
fn sure_memories_are_kept_hot() {
    let fact = facts(MemoryType::ProjectFact);
    assert!(fact.hot_eligible(true, true));
    assert!(!fact.hot_eligible(false, true));
    assert!(!facts(MemoryType::ProjectFact)
        .with_status(MemoryStatus::Archived)
        .hot_eligible(true, true));
}

#[test]
fn sure_preferences_become_rules() {
    assert!(facts(MemoryType::UserPreference).rule_eligible(true, true));
    assert!(!facts(MemoryType::DebuggingLesson).rule_eligible(true, true));
    assert!(!facts(MemoryType::UserPreference)
        .with_risk(MemoryRisk::High)
        .rule_eligible(true, true));
}

#[test]
fn items_expire() {
    let mut item = StoreItem::with_ttl(
        vec!["ns".to_string()],
        "k".to_string(),
        parse("1").unwrap(),
        60,
        1_000,
    );
    assert_eq!(item.created_at, 1_000);
    assert_eq!(item.expires_at, Some(1_060));
    item.touch(1_010);
    assert_eq!(item.last_accessed, Some(1_010));
    let plain = StoreItem::new(vec![], "k".to_string(), parse("1").unwrap(), 5);
    assert_eq!(plain.expires_at, None);
}

#[test]
fn only_keyword_search_is_built_in() {
    assert!(check_search_mode(SearchMode::Keyword).is_ok());
    assert!(matches!(
        check_search_mode(SearchMode::Semantic),
        Err(MemoryError::Unsupported(_))
    ));
    assert!(check_search_mode(SearchMode::Hybrid).is_err());
    assert!(SearchQuery::hybrid("q", 3).mode == SearchMode::Hybrid);
    assert!(SearchQuery::semantic("q", 3).mode == SearchMode::Semantic);
    assert_eq!(SearchQuery::keyword("q", 3).limit, 3);
}
