use echo_agent::prompt_template::PromptTemplateManager;
use std::sync::Arc;

#[test]
fn test_simple_variable_substitution() {
    let mut manager = PromptTemplateManager::new();
    manager.register("greeting", "Hello, {{name}}!");
    let result = manager.render("greeting", &[("name", "Alice")]).unwrap();
    assert_eq!(result, "Hello, Alice!");
}

#[test]
fn test_multiple_variables() {
    let mut manager = PromptTemplateManager::new();
    manager.register("intro", "I am {{name}}, a {{role}} at {{company}}.");
    let result = manager
        .render(
            "intro",
            &[("name", "Bob"), ("role", "engineer"), ("company", "Acme")],
        )
        .unwrap();
    assert_eq!(result, "I am Bob, a engineer at Acme.");
}

#[test]
fn test_default_value() {
    let mut manager = PromptTemplateManager::new();
    manager.register("fallback", "Hello, {{name:Guest}}!");
    // Without providing 'name', defaults to "Guest"
    let result = manager.render("fallback", &[]).unwrap();
    assert_eq!(result, "Hello, Guest!");
    // With 'name' provided, uses the provided value
    let result = manager.render("fallback", &[("name", "Alice")]).unwrap();
    assert_eq!(result, "Hello, Alice!");
}

#[test]
fn test_missing_variable_empty() {
    let mut manager = PromptTemplateManager::new();
    manager.register("missing", "Hello, {{name}}!");
    let result = manager.render("missing", &[]).unwrap();
    assert_eq!(result, "Hello, !");
}

#[test]
fn test_conditional_block_present() {
    let mut manager = PromptTemplateManager::new();
    manager.register(
        "cond",
        "Base text. {{#if detail}}Details: {{detail}}.{{#endif}} End.",
    );
    let result = manager
        .render("cond", &[("detail", "important info")])
        .unwrap();
    assert_eq!(result, "Base text. Details: important info. End.");
}

#[test]
fn test_conditional_block_absent() {
    let mut manager = PromptTemplateManager::new();
    manager.register(
        "cond",
        "Base text. {{#if detail}}Details: {{detail}}.{{#endif}} End.",
    );
    let result = manager.render("cond", &[]).unwrap();
    assert_eq!(result, "Base text.  End.");
}

#[test]
fn test_conditional_with_else() {
    let mut manager = PromptTemplateManager::new();
    manager.register(
        "cond_else",
        "{{#if premium}}Premium features enabled.{{#else}}Standard features only.{{#endif}}",
    );
    // Premium present
    let result = manager.render("cond_else", &[("premium", "true")]).unwrap();
    assert_eq!(result, "Premium features enabled.");
    // Premium absent
    let result = manager.render("cond_else", &[]).unwrap();
    assert_eq!(result, "Standard features only.");
}

#[test]
fn test_conditional_empty_value_acts_as_absent() {
    let mut manager = PromptTemplateManager::new();
    manager.register("cond_empty", "{{#if var}}Present{{#else}}Absent{{#endif}}");
    // Empty string value triggers the else branch
    let result = manager.render("cond_empty", &[("var", "")]).unwrap();
    assert_eq!(result, "Absent");
}

#[test]
fn test_nested_conditional() {
    let mut manager = PromptTemplateManager::new();
    manager.register(
        "nested",
        "{{#if a}}A is present. {{#if b}}B too.{{#else}}B missing.{{#endif}}{{#else}}A missing.{{#endif}}",
    );
    // Both present
    let result = manager
        .render("nested", &[("a", "yes"), ("b", "yes")])
        .unwrap();
    assert_eq!(result, "A is present. B too.");
    // Only A present
    let result = manager.render("nested", &[("a", "yes")]).unwrap();
    assert_eq!(result, "A is present. B missing.");
    // A absent
    let result = manager.render("nested", &[]).unwrap();
    assert_eq!(result, "A missing.");
}

#[test]
fn test_template_not_found() {
    let manager = PromptTemplateManager::new();
    let result = manager.render("nonexistent", &[]);
    assert!(result.is_err());
    assert!(result.unwrap_err().message().contains("not found"));
}

#[test]
fn test_register_overwrite() {
    let mut manager = PromptTemplateManager::new();
    manager.register("key", "Version 1");
    manager.register("key", "Version 2");
    let result = manager.render("key", &[]).unwrap();
    assert_eq!(result, "Version 2");
}

#[test]
fn test_remove_template() {
    let mut manager = PromptTemplateManager::new();
    manager.register("key", "Value");
    assert!(manager.remove("key"));
    assert!(!manager.contains("key"));
    assert!(!manager.remove("key")); // Already removed
}

#[test]
fn test_template_names() {
    let mut manager = PromptTemplateManager::new();
    manager.register("a", "A");
    manager.register("b", "B");
    manager.register("c", "C");
    let names = manager.template_names();
    assert_eq!(names.len(), 3);
    assert!(names.contains(&"a".to_string()));
    assert!(names.contains(&"b".to_string()));
    assert!(names.contains(&"c".to_string()));
}

#[test]
fn test_render_template_direct() {
    let manager = PromptTemplateManager::new();
    let result = manager.render_template("Hello {{who}}!", &[("who", "World")]);
    assert_eq!(result, "Hello World!");
}

#[test]
fn test_render_or_raw_static_template() {
    let mut manager = PromptTemplateManager::new();
    manager.register("static", "No variables here.");
    let result = manager.render_or_raw("static", &[]).unwrap();
    assert_eq!(result, "No variables here.");
}

#[test]
fn test_render_or_raw_dynamic_template() {
    let mut manager = PromptTemplateManager::new();
    manager.register("dynamic", "Hello, {{name}}!");
    let result = manager
        .render_or_raw("dynamic", &[("name", "Alice")])
        .unwrap();
    assert_eq!(result, "Hello, Alice!");
}

#[test]
fn test_arc_shared_manager() {
    let mut manager = PromptTemplateManager::new();
    manager.register("shared", "Hello, {{name}}!");
    let manager = Arc::new(manager);

    // Can be used from multiple references
    let m1 = Arc::clone(&manager);
    let m2 = Arc::clone(&manager);
    let r1 = m1.render("shared", &[("name", "A")]).unwrap();
    let r2 = m2.render("shared", &[("name", "B")]).unwrap();
    assert_eq!(r1, "Hello, A!");
    assert_eq!(r2, "Hello, B!");
}

#[test]
fn test_get_template() {
    let mut manager = PromptTemplateManager::new();
    manager.register("key", "Hello {{name}}");
    assert_eq!(
        manager.get_template("key"),
        Some("Hello {{name}}".to_string())
    );
    assert_eq!(manager.get_template("missing"), None);
}

#[test]
fn test_whitespace_in_tags() {
    let mut manager = PromptTemplateManager::new();
    manager.register("ws", "Hello, {{ name }}!");
    let result = manager.render("ws", &[("name", "Alice")]).unwrap();
    assert_eq!(result, "Hello, Alice!");
}

#[test]
fn test_literal_with_no_markers() {
    let mut manager = PromptTemplateManager::new();
    manager.register("plain", "Just plain text.");
    let result = manager.render("plain", &[]).unwrap();
    assert_eq!(result, "Just plain text.");
}

#[test]
fn markers_that_never_close_stay_in_the_text() {
    let manager = PromptTemplateManager::default();
    assert_eq!(manager.render_template("Hi {{name", &[("name", "Bob")]), "Hi {{name");
    assert_eq!(manager.render_template("{{a}} {{b", &[("a", "1")]), "1 {{b");
    assert_eq!(manager.render_template("{{#if a}}x", &[("a", "1")]), "x");
}

#[test]
fn the_first_colon_starts_the_default() {
    let manager = PromptTemplateManager::new();
    assert_eq!(manager.render_template("{{ url : http://x }}", &[]), "http://x");
    assert_eq!(manager.render_template("{{a}}", &[("a", "1"), ("a", "2")]), "2");
}
