use echo_agent::patterns::tool_matcher;
use echo_agent::prompt_exec::{
    begin_skill_content, finish_skill_content, SkillSource, SkillStep,
};
use echo_agent::skill_registry::{extract_body, list_resources, SkillInfo, SkillRegistry};
use echo_agent::skills::{SkillDescriptor, SkillResourceKind, SkillSandboxPolicy};
use echo_agent::table::Table;

fn make_descriptor(name: &str, desc: &str) -> SkillDescriptor {
    SkillDescriptor {
        name: name.into(),
        description: desc.into(),
        location: format!("/skills/{}/SKILL.md", name),
        license: None,
        compatibility: None,
        metadata: Table::new(),
        allowed_tools: vec![],
        shell: None,
        paths: vec![],
        triggers: vec![],
        hooks: None,
        sandbox: None,
        depends_on: vec![],
    }
}

fn make_descriptor_with_tools(name: &str, allowed: Vec<&str>) -> SkillDescriptor {
    let mut desc = make_descriptor(name, &format!("{} skill", name));
    desc.allowed_tools = allowed.into_iter().map(String::from).collect();
    desc
}

#[test]
fn test_registry_new() {
    let reg = SkillRegistry::new();
    assert_eq!(reg.count(), 0);
    assert!(reg.catalog_prompt().is_none());
}

#[test]
fn test_register_descriptor() {
    let mut reg = SkillRegistry::new();
    reg.register_descriptor(make_descriptor("code-review", "Review code quality"));

    assert_eq!(reg.descriptor_count(), 1);
    assert!(reg.get_descriptor("code-review").is_some());
    assert!(reg.is_installed("code-review"));
}

#[test]
fn test_catalog_prompt() {
    let mut reg = SkillRegistry::new();
    reg.register_descriptor(make_descriptor("code-review", "Review code"));
    reg.register_descriptor(make_descriptor("data-analysis", "Analyze data"));

    let catalog = reg.catalog_prompt().unwrap();
    assert!(catalog.contains("activate_skill"));
    assert!(catalog.contains("- code-review: Review code"));
    assert!(catalog.contains("- data-analysis: Analyze data"));
}

#[test]
fn test_activation_tracking() {
    let mut reg = SkillRegistry::new();
    reg.register_descriptor(make_descriptor("test", "Test skill"));

    assert!(!reg.is_activated("test"));
    assert!(reg.mark_activated("test"));
    assert!(reg.is_activated("test"));
    assert!(!reg.mark_activated("test")); // dedup
    assert_eq!(reg.activated_count(), 1);
}

#[test]
fn test_code_skills() {
    let mut reg = SkillRegistry::new();
    reg.record_code_skill(SkillInfo {
        name: "calculator".into(),
        description: "Math operations".into(),
        tool_names: vec!["add".into(), "subtract".into()],
        has_prompt_injection: true,
    });

    assert!(reg.has_code_skill("calculator"));
    assert!(reg.is_installed("calculator"));
    assert_eq!(reg.count(), 1);
}

#[test]
fn test_available_names() {
    let mut reg = SkillRegistry::new();
    reg.register_descriptor(make_descriptor("b-skill", "B"));
    reg.register_descriptor(make_descriptor("a-skill", "A"));

    let names = reg.available_names();
    assert_eq!(names, vec!["a-skill", "b-skill"]);
}

#[test]
fn test_extract_body() {
    let content = "---\nname: test\ndescription: Test\n---\n\n# Instructions\n\nDo stuff.";
    let body = extract_body(content);
    assert_eq!(body, "# Instructions\n\nDo stuff.");
}

#[test]
fn test_extract_body_no_frontmatter() {
    let content = "# Just markdown\n\nNo frontmatter here.";
    let body = extract_body(content);
    assert_eq!(body, content);
}

#[test]
fn test_extract_body_malformed_frontmatter_returns_empty() {
    let content = "---\nname: test\ndescription: missing terminator\n# Instructions";
    let body = extract_body(content);
    assert!(body.is_empty());
}

#[test]
fn test_mixed_skills() {
    let mut reg = SkillRegistry::new();
    reg.register_descriptor(make_descriptor("file-skill", "File-based"));
    reg.record_code_skill(SkillInfo {
        name: "code-skill".into(),
        description: "Code-based".into(),
        tool_names: vec![],
        has_prompt_injection: false,
    });

    assert_eq!(reg.count(), 2);
    assert!(reg.is_installed("file-skill"));
    assert!(reg.is_installed("code-skill"));
    assert!(!reg.is_installed("missing"));
}

#[test]
fn test_active_skill_allowed_tools_empty_when_no_skills_activated() {
    let reg = SkillRegistry::new();
    assert!(
        reg.active_skill_allowed_tools().is_none(),
        "No activated skills → unrestricted"
    );
}

#[test]
fn test_active_skill_allowed_tools_empty_when_no_restrictions() {
    let mut reg = SkillRegistry::new();
    reg.register_descriptor(make_descriptor("open-skill", "No tool restrictions"));
    reg.mark_activated("open-skill");

    assert!(
        reg.active_skill_allowed_tools().is_none(),
        "Activated skill with empty allowed_tools → unrestricted"
    );
}

#[test]
fn test_active_skill_allowed_tools_returns_whitelist() {
    let mut reg = SkillRegistry::new();

    // Medical skill: only research tools, no shell
    reg.register_descriptor(make_descriptor_with_tools(
        "evidence-medicine",
        vec!["Read", "Write", "Edit", "WebSearch", "PubMedSearch"],
    ));
    reg.mark_activated("evidence-medicine");

    let allowed = reg
        .active_skill_allowed_tools()
        .expect("Should return Some when skill restricts tools");

    assert!(allowed.contains(&"Read".to_string()));
    assert!(allowed.contains(&"PubMedSearch".to_string()));
    assert!(!allowed.contains(&"Bash".to_string()));
    assert!(!allowed.contains(&"Shell".to_string()));
}

#[test]
fn test_active_skill_allowed_tools_union_of_multiple_skills() {
    let mut reg = SkillRegistry::new();

    reg.register_descriptor(make_descriptor_with_tools(
        "coding",
        vec!["Bash(*)", "Read", "Write", "Edit", "Glob", "Grep"],
    ));
    reg.register_descriptor(make_descriptor_with_tools(
        "git-workflow",
        vec!["Bash(git:*)", "Read", "Glob"],
    ));

    // Activate both skills
    reg.mark_activated("coding");
    reg.mark_activated("git-workflow");

    let allowed = reg
        .active_skill_allowed_tools()
        .expect("Should return union of allowed tools");

    // Should contain tools from both skills
    assert!(allowed.contains(&"Bash(*)".to_string()));
    assert!(allowed.contains(&"Bash(git:*)".to_string()));
    assert!(allowed.contains(&"Read".to_string()));
    assert!(allowed.contains(&"Grep".to_string()));
}

#[test]
fn test_tool_matcher_rejects_disallowed_tool() {
    // Simulate the permission check that happens in stream_channel.rs
    let allowed: Vec<String> = ["Read", "Write", "Edit", "WebSearch", "PubMedSearch"]
        .iter()
        .map(|s| s.to_string())
        .collect();

    let tool_name = "Bash";
    let permitted = allowed
        .iter()
        .any(|matcher| tool_matcher(matcher, tool_name));

    assert!(
        !permitted,
        "Bash should NOT be permitted by evidence-medicine's allowed-tools"
    );
}

#[test]
fn test_tool_matcher_accepts_allowed_tool() {
    let allowed: Vec<String> = ["Read", "Write", "Edit", "WebSearch", "PubMedSearch"]
        .iter()
        .map(|s| s.to_string())
        .collect();

    let tool_name = "PubMedSearch";
    let permitted = allowed
        .iter()
        .any(|matcher| tool_matcher(matcher, tool_name));

    assert!(
        permitted,
        "PubMedSearch should be permitted by evidence-medicine's allowed-tools"
    );
}

#[test]
fn test_tool_matcher_glob_pattern() {
    let allowed: Vec<String> = ["Bash(*)", "Read"].iter().map(|s| s.to_string()).collect();

    // Bash(*) should match Bash(git:status)
    let permitted = allowed.iter().any(|matcher| {
        tool_matcher(matcher, "Bash(git:status)")
    });
    assert!(permitted, "Bash(*) should match Bash(git:status)");

    // Bash(*) should NOT match Read
    let is_read = allowed
        .iter()
        .any(|matcher| tool_matcher(matcher, "Read"));
    assert!(is_read, "Read should be directly permitted");
}

#[test]
fn test_register_descriptor_with_legacy() {
    let mut reg = SkillRegistry::new();
    reg.register_descriptor_with_legacy(
        make_descriptor("legacy-skill", "Legacy"),
        Some("Use legacy instructions.".to_string()),
    );

    assert_eq!(
        reg.raw_instructions("legacy-skill", "---\nname: legacy-skill\n---\n"),
        "Use legacy instructions."
    );
}

#[test]
fn test_activate_falls_back_to_legacy_instructions() {
    let mut reg = SkillRegistry::new();
    reg.register_descriptor_with_legacy(
        make_descriptor("legacy-skill", "Legacy skill"),
        Some("Use the legacy body".to_string()),
    );
    let raw = reg.raw_instructions(
        "legacy-skill",
        "---\nname: legacy-skill\ndescription: Legacy skill\n---\n",
    );
    let dir = reg.skill_directory("legacy-skill").ok().unwrap();
    assert_eq!(dir, "/skills/legacy-skill");
    let ctx = reg.prompt_context("legacy-skill", &dir, &vec![], SkillSource::Local);
    let text = match begin_skill_content(&raw, &ctx) {
        SkillStep::Done(text) => text,
        SkillStep::Run { text, commands } => {
            assert!(commands.is_empty());
            finish_skill_content(&raw, &text, &vec![])
        }
    };
    reg.finish_activation("legacy-skill");
    assert!(reg.is_activated("legacy-skill"));
    let content = reg.content("legacy-skill", &vec![], &text, vec![]).unwrap();
    assert!(content.instructions.contains("Use the legacy body"));
}

#[test]
fn unknown_skills_have_no_directory() {
    let reg = SkillRegistry::new();
    assert!(reg.skill_directory("missing").is_err());
    assert!(reg.content("missing", &vec![], "", vec![]).is_none());
    assert!(reg.next_dependency("missing", 0).is_none());
}

#[test]
fn dependencies_are_followed_once() {
    let mut reg = SkillRegistry::new();
    let mut a = make_descriptor("a", "A");
    a.depends_on = vec!["b".into(), "c".into()];
    let mut b = make_descriptor("b", "B");
    b.depends_on = vec!["c".into(), "a".into()];
    reg.register_descriptor(a);
    reg.register_descriptor(b);
    reg.register_descriptor(make_descriptor("c", "C"));
    let tree = reg.get_dependency_tree("a");
    for name in ["b", "c"] {
        assert_eq!(tree.iter().filter(|n| n.as_str() == name).count(), 1);
    }
    assert_eq!(reg.next_dependency("a", 0), Some(0));
    reg.mark_activated("b");
    assert_eq!(reg.next_dependency("a", 0), Some(1));
    reg.mark_activated("c");
    assert_eq!(reg.next_dependency("a", 0), None);
    let mut names = reg.activated_names();
    names.sort();
    assert_eq!(names, vec!["b", "c"]);
}

#[test]
fn activation_keeps_the_policy_of_the_skill() {
    let mut reg = SkillRegistry::new();
    let mut d = make_descriptor("boxed", "Boxed");
    let mut policy = SkillSandboxPolicy::default();
    policy.network = Some(false);
    d.sandbox = Some(policy);
    reg.register_descriptor(d);
    assert!(reg.get_active_sandbox_policy("boxed").is_none());
    reg.finish_activation("boxed");
    assert!(!reg.get_active_sandbox_policy("boxed").unwrap().network_allowed());
}

#[test]
fn resources_are_sorted_by_kind_and_path() {
    let found = list_resources(
        &vec!["b.py".to_string(), "a.py".to_string()],
        &vec!["r.md".to_string()],
        &vec![],
        &vec!["notes.txt".to_string()],
    );
    let paths: Vec<&str> = found.iter().map(|e| e.relative_path.as_str()).collect();
    assert_eq!(
        paths,
        vec!["notes.txt", "references/r.md", "scripts/a.py", "scripts/b.py"]
    );
    assert!(matches!(found[2].kind, SkillResourceKind::Script));
}

#[test]
fn code_skills_are_listed() {
    let mut reg = SkillRegistry::default();
    reg.record_code_skill(SkillInfo {
        name: "calc".into(),
        description: "Math".into(),
        tool_names: vec!["add".into()],
        has_prompt_injection: false,
    });
    assert_eq!(reg.list_code_skills().len(), 1);
    assert_eq!(reg.list().len(), 1);
    assert_eq!(reg.get("calc").unwrap().description, "Math");
    assert!(reg.get_code_skill("other").is_none());
    assert!(reg.list_descriptors().is_empty());
}

#[test]
fn all_skills_are_listed() {
    let mut reg = SkillRegistry::new();
    reg.register_descriptor(make_descriptor("z-file", "File-based"));
    reg.register_descriptor(make_descriptor("file-skill", "File-based"));
    reg.record_code_skill(SkillInfo {
        name: "code-skill".into(),
        description: "Code-based".into(),
        tool_names: vec!["add".into()],
        has_prompt_injection: false,
    });
    let list = reg.list();
    let names: Vec<&str> = list.iter().map(|i| i.name.as_str()).collect();
    assert_eq!(names, vec!["code-skill", "file-skill", "z-file"]);
    assert_eq!(list.len(), reg.count());
    assert_eq!(list[0].tool_names, vec!["add"]);
    assert_eq!(list[1].description, "File-based");
    assert!(list[1].tool_names.is_empty());
    let files: Vec<&str> = reg.list_descriptors().iter().map(|d| d.name.as_str()).collect();
    assert_eq!(files, vec!["file-skill", "z-file"]);
    assert_eq!(files.len(), reg.descriptor_count());
}

#[test]
fn one_name_counts_in_both_kinds() {
    let mut reg = SkillRegistry::new();
    for _ in 0..2 {
        reg.register_descriptor(make_descriptor("both", "B"));
        reg.record_code_skill(SkillInfo {
            name: "both".into(),
            description: "B".into(),
            tool_names: vec![],
            has_prompt_injection: false,
        });
    }
    assert_eq!(reg.count(), 2);
    assert_eq!(reg.list().len(), 2);
}

#[test]
fn dependencies_come_before_what_needs_them() {
    let mut reg = SkillRegistry::new();
    for (name, needs) in [("a", vec!["b", "c"]), ("b", vec!["d"]), ("c", vec!["d", "b"])] {
        let mut d = make_descriptor(name, name);
        d.depends_on = needs.into_iter().map(String::from).collect();
        reg.register_descriptor(d);
    }
    reg.register_descriptor(make_descriptor("unrelated", "U"));
    assert_eq!(reg.get_dependency_tree("a"), vec!["d", "b", "c"]);
}
