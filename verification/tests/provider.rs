use echo_agent::provider::{
    canonical_provider_key, provider_base_from_endpoint, read_provider_config, requested_provider,
    save_model, supported_provider_names, ProviderConfig, ProviderModelInput, API_KEY_MASK,
};

fn read(text: &str) -> ProviderConfig {
    read_provider_config("models.yaml", Some(text), &vec!["openai".to_string()])
        .ok()
        .unwrap()
}

#[test]
fn reads_provider_groups_from_models_yaml() {
    let text = r#"
providers:
  zhipu:
    name: 智谱
    baseUrl: https://open.bigmodel.cn/api/paas/v4
    apiKey: ${ZHIPU_API_KEY}
    api: openai-completions
    auth: apiKey
    models:
      - id: glm-5.1
        name: glm-5.1
  dashscope:
    name: 通义千问
    baseUrl: https://dashscope.aliyuncs.com/compatible-mode/v1
    apiKey: ${DASHSCOPE_API_KEY}
    api: openai-completions
    auth: apiKey
    models:
      - id: qwen-plus
        name: qwen-plus
"#;

    let config = read(text);

    assert_eq!(config.models.len(), 2);
    assert_eq!(config.providers.len(), 2);
    assert_eq!(config.providers[0].name, "dashscope");
    assert_eq!(config.providers[0].display_name, "通义千问");
    assert_eq!(config.providers[0].models[0].name, "qwen-plus");
    assert_eq!(config.providers[0].models[0].api_key, API_KEY_MASK);
    assert_eq!(config.providers[1].name, "zhipu");
    assert_eq!(config.providers[1].display_name, "智谱");
    assert_eq!(
        config.providers[1].models[0].model.as_deref(),
        Some("glm-5.1")
    );
}

#[test]
fn saves_new_model_to_models_yaml() {
    let text = "providers: {}\n";

    let input = ProviderModelInput {
        name: "gpt-4o-mini".to_string(),
        provider: Some("openai".to_string()),
        base_url: None,
        api_key: "${OPENAI_API_KEY}".to_string(),
        model: Some("gpt-4o-mini".to_string()),
    };
    let yaml = save_model(Some(text), &input, Some("https://api.openai.com/v1/chat/completions")).ok().unwrap();

    let config = read(&yaml);
    let model = config
        .models
        .iter()
        .find(|m| m.name == "gpt-4o-mini")
        .unwrap();
    assert_eq!(model.provider.as_deref(), Some("openai"));
    assert_eq!(
        model.base_url.as_deref(),
        Some("https://api.openai.com/v1")
    );
    assert_eq!(model.api_key, API_KEY_MASK);

    assert!(yaml.contains("providers:"));
    assert!(yaml.contains("baseUrl: https://api.openai.com/v1"));
    assert!(yaml.contains("apiKey: ${OPENAI_API_KEY}"));
    assert!(yaml.contains("api: openai-completions"));
    assert!(yaml.contains("auth: apiKey"));
    assert!(yaml.contains("id: gpt-4o-mini"));
}

#[test]
fn saves_masked_api_key_without_overwriting_existing_secret() {
    let text = r#"
providers:
  hsapi:
    name: 火山引擎
    baseUrl: https://ark.cn-beijing.volces.com/api/coding/v3
    apiKey: ark-secret
    api: openai-completions
    auth: apiKey
    models:
      - id: glm-5.1
        name: glm-5.1
"#;

    let input = ProviderModelInput {
        name: "glm-5.1".to_string(),
        provider: Some("hsapi".to_string()),
        base_url: Some("https://ark.cn-beijing.volces.com/api/coding/v3".to_string()),
        api_key: API_KEY_MASK.to_string(),
        model: Some("glm-5.1".to_string()),
    };
    let yaml = save_model(Some(text), &input, None).ok().unwrap();

    assert!(yaml.contains("apiKey: ark-secret"));

    let config = read(&yaml);
    assert_eq!(config.providers[0].name, "hsapi");
    assert_eq!(config.providers[0].display_name, "火山引擎");
    assert_eq!(config.providers[0].models[0].api_key, API_KEY_MASK);
}

#[test]
fn documents_that_cannot_be_read_are_refused() {
    let none: Vec<String> = vec![];
    assert!(read_provider_config("p", Some("a: [b"), &none).is_err());
    let empty = read_provider_config("p", None, &none).ok().unwrap();
    assert!(empty.models.is_empty());
    assert_eq!(empty.path, "p");
}

#[test]
fn models_need_a_name_and_a_key() {
    let input = |name: &str, key: &str| ProviderModelInput {
        name: name.to_string(),
        provider: Some("openai".to_string()),
        base_url: None,
        api_key: key.to_string(),
        model: None,
    };
    assert!(save_model(None, &input("", "k"), None).is_err());
    assert_eq!(requested_provider(&input("gpt", "k")), "openai");
}

#[test]
fn provider_names_have_one_form() {
    assert_eq!(canonical_provider_key("qwen").as_deref(), Some("dashscope"));
    assert_eq!(canonical_provider_key("kimi").as_deref(), Some("moonshot"));
    assert_eq!(canonical_provider_key("nobody"), None);
    assert_eq!(
        provider_base_from_endpoint("https://api.openai.com/v1/chat/completions"),
        "https://api.openai.com/v1"
    );
    let names = supported_provider_names(&vec!["qwen".to_string(), "openai".to_string()]);
    assert!(names.contains(&"openai".to_string()));
}

#[test]
fn the_mask_never_becomes_a_key() {
    let text = read("providers:\n  openai:\n    name: O\n    apiKey: sk-1\n    models:\n      - id: m\n        name: m\n");
    assert_eq!(text.models.len(), 1);
    assert_eq!(text.models[0].api_key, API_KEY_MASK);
}
