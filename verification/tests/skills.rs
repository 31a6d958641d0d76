use echo_agent::sandbox::IsolationLevel;
use echo_agent::skills::{
    warnings_for_path, AllowedToolsValue, RawFrontmatter, SkillContent, SkillDescriptor,
    SkillResourceEntry, SkillResourceKind, SkillSandboxPolicy,
};
use echo_agent::table::Table;

fn make_desc_with_paths(paths: Vec<&str>) -> SkillDescriptor {
    SkillDescriptor {
        name: "test".into(),
        description: "test".into(),
        location: String::new(),
        license: None,
        compatibility: None,
        metadata: Table::new(),
        allowed_tools: vec![],
        shell: None,
        paths: paths.into_iter().map(String::from).collect(),
        triggers: vec![],
        hooks: None,
        sandbox: None,
        depends_on: vec![],
    }
}

#[test]
fn test_descriptor_validate_name_valid() {
    let d = SkillDescriptor {
        name: "code-review".into(),
        description: "Review code".into(),
        location: String::new(),
        license: None,
        compatibility: None,
        metadata: Table::new(),
        allowed_tools: vec![],
        shell: None,
        paths: vec![],
        triggers: vec![],
        hooks: None,
        sandbox: None,
        depends_on: vec![],
    };
    assert!(d.validate_name().is_empty());
}

#[test]
fn test_descriptor_validate_name_invalid() {
    let cases = vec![
        ("Code-Review", "uppercase"),
        ("-code", "starts with hyphen"),
        ("code-", "ends with hyphen"),
        ("code--review", "consecutive hyphens"),
        ("code_review", "underscore"),
    ];
    for (name, reason) in cases {
        let d = SkillDescriptor {
            name: name.into(),
            description: "test".into(),
            location: String::new(),
            license: None,
            compatibility: None,
            metadata: Table::new(),
            allowed_tools: vec![],
            shell: None,
            paths: vec![],
            triggers: vec![],
            hooks: None,
            sandbox: None,
            depends_on: vec![],
        };
        assert!(
            !d.validate_name().is_empty(),
            "expected warnings for {}: {}",
            name,
            reason
        );
    }
}

#[test]
fn test_descriptor_catalog_line() {
    let d = SkillDescriptor {
        name: "pdf-processing".into(),
        description: "Extract PDF text, fill forms.".into(),
        location: String::new(),
        license: None,
        compatibility: None,
        metadata: Table::new(),
        allowed_tools: vec![],
        shell: None,
        paths: vec![],
        triggers: vec![],
        hooks: None,
        sandbox: None,
        depends_on: vec![],
    };
    assert_eq!(
        d.catalog_line(),
        "- pdf-processing: Extract PDF text, fill forms."
    );
}

#[test]
fn test_skill_content_prompt_block() {
    let descriptor = SkillDescriptor {
        name: "test-skill".into(),
        description: "A test".into(),
        location: "/home/user/skills/test-skill/SKILL.md".into(),
        license: None,
        compatibility: None,
        metadata: Table::new(),
        allowed_tools: vec![],
        shell: None,
        paths: vec![],
        triggers: vec![],
        hooks: None,
        sandbox: None,
        depends_on: vec![],
    };
    let content = SkillContent {
        descriptor: &descriptor,
        instructions: "# Instructions\n\nDo the thing.".into(),
        resources: vec![
            SkillResourceEntry {
                relative_path: "scripts/run.py".into(),
                kind: SkillResourceKind::Script,
            },
            SkillResourceEntry {
                relative_path: "references/guide.md".into(),
                kind: SkillResourceKind::Reference,
            },
        ],
    };
    let block = content.to_prompt_block();
    assert!(block.contains("<skill_content name=\"test-skill\">"));
    assert!(block.contains("# Instructions"));
    assert!(block.contains("<skill_resources>"));
    assert!(block.contains("scripts/run.py"));
    assert!(block.contains("</skill_content>"));
}

#[test]
fn test_resource_kind_display() {
    assert_eq!(SkillResourceKind::Script.as_str(), "script");
    assert_eq!(SkillResourceKind::Reference.as_str(), "reference");
    assert_eq!(SkillResourceKind::Asset.as_str(), "asset");
    assert_eq!(SkillResourceKind::Other.as_str(), "other");
}

#[test]
fn test_raw_frontmatter_into_descriptor() {
    let raw = RawFrontmatter {
        name: "my-skill".into(),
        description: "Does things".into(),
        license: Some("MIT".into()),
        compatibility: None,
        metadata: None,
        allowed_tools: Some(AllowedToolsValue::Text("Bash(git:*) Read".into())),
        shell: Some("bash".into()),
        paths: Some(vec!["*.py".into()]),
        triggers: None,
        hooks: None,
        sandbox: None,
        depends_on: None,
        version: Some("1.0.0".into()),
        author: Some("team".into()),
        tags: Some(vec!["code".into(), "review".into()]),
        instructions: None,
        resources: None,
    };

    let desc = raw.into_descriptor("/skills/my-skill/SKILL.md");
    assert_eq!(desc.name, "my-skill");
    assert_eq!(desc.license, Some("MIT".into()));
    assert_eq!(desc.allowed_tools, vec!["Bash(git:*)", "Read"]);
    assert_eq!(desc.shell, Some("bash".into()));
    assert_eq!(desc.paths, vec!["*.py"]);
    assert_eq!(desc.metadata.get("version").unwrap(), "1.0.0");
    assert_eq!(desc.metadata.get("author").unwrap(), "team");
    assert_eq!(desc.metadata.get("tags").unwrap(), "code, review");
}

#[test]
fn test_raw_frontmatter_legacy_detection() {
    let standard = RawFrontmatter {
        name: "s".into(),
        description: "d".into(),
        license: None,
        compatibility: None,
        metadata: None,
        allowed_tools: None,
        shell: None,
        paths: None,
        triggers: None,
        hooks: None,
        sandbox: None,
        depends_on: None,
        version: None,
        author: None,
        tags: None,
        instructions: None,
        resources: None,
    };
    assert!(!standard.is_legacy_format());

    let legacy = RawFrontmatter {
        instructions: Some("do stuff".into()),
        ..standard
    };
    assert!(legacy.is_legacy_format());
}

#[test]
fn test_allowed_tools_value_string() {
    let v = AllowedToolsValue::Text("Bash(git:*) Read Write".into());
    assert_eq!(v.into_vec(), vec!["Bash(git:*)", "Read", "Write"]);
}

#[test]
fn test_allowed_tools_value_list() {
    let v = AllowedToolsValue::List(vec!["Read".into(), "Write".into()]);
    assert_eq!(v.into_vec(), vec!["Read", "Write"]);
}

#[test]
fn test_validate_paths_good() {
    let d = make_desc_with_paths(vec!["*.py", "src/**/*.rs", "tests/**"]);
    let warnings = d.validate_paths();
    // No traversal or syntax errors
    assert!(!warnings.iter().any(|w| w.contains("'..'")));
    assert!(!warnings.iter().any(|w| w.contains("not valid glob")));
}

#[test]
fn test_validate_paths_traversal() {
    let d = make_desc_with_paths(vec!["../secret.txt"]);
    let warnings = d.validate_paths();
    assert!(warnings.iter().any(|w| w.contains("'..'")));
}

#[test]
fn test_validate_paths_unbalanced_braces() {
    let d = make_desc_with_paths(vec!["*.py", "{foo,bar"]);
    let warnings = d.validate_paths();
    assert!(warnings.iter().any(|w| w.contains("unbalanced")));
}

#[test]
fn test_validate_paths_overly_broad() {
    let d = make_desc_with_paths(vec!["**"]);
    let warnings = d.validate_paths();
    assert!(warnings.iter().any(|w| w.contains("overly broad")));
}

#[test]
fn test_matches_context_path() {
    let d = make_desc_with_paths(vec!["*.py", "tests/**"]);
    assert!(d.matches_context_path("main.py"));
    assert!(d.matches_context_path("./tests/unit/test_demo.rs"));
    assert!(!d.matches_context_path("src/main.rs"));
}

#[test]
fn test_permits_tool() {
    let mut d = make_desc_with_paths(vec![]);
    d.allowed_tools = vec!["read_skill_resource".into(), "Bash(*)".into()];
    assert!(d.permits_tool("read_skill_resource"));
    assert!(d.permits_tool("Bash(git:status)"));
    assert!(!d.permits_tool("run_skill_script"));
}

#[test]
fn broken_patterns_are_told() {
    assert!(warnings_for_path("[", &Some("bad".to_string()))
        .iter()
        .any(|w| w.contains("bad")));
    let d = make_desc_with_paths(vec!["[a"]);
    assert!(!d.validate_paths().is_empty());
}

#[test]
fn an_empty_list_permits_every_tool() {
    let d = make_desc_with_paths(vec![]);
    assert!(d.permits_tool("anything"));
}

#[test]
fn policies_say_what_they_constrain() {
    let mut policy = SkillSandboxPolicy::default();
    assert!(!policy.is_constraining());
    assert!(!policy.network_allowed());
    policy.network = Some(true);
    assert!(policy.is_constraining());
    assert!(policy.network_allowed());
    policy.isolation = Some(IsolationLevel::Container);
    policy.denied_paths.push("/etc".to_string());
    let copied = policy.copy();
    assert!(copied.isolation == Some(IsolationLevel::Container));
    assert_eq!(copied.denied_paths, vec!["/etc"]);
}

#[test]
fn any_old_field_marks_an_old_file() {
    let plain = || RawFrontmatter {
        name: "s".into(),
        description: "d".into(),
        license: None,
        compatibility: None,
        metadata: None,
        allowed_tools: None,
        shell: None,
        paths: None,
        triggers: None,
        hooks: None,
        sandbox: None,
        depends_on: None,
        version: None,
        author: None,
        tags: None,
        instructions: None,
        resources: None,
    };
    assert!(!plain().is_legacy_format());
    assert!(RawFrontmatter { version: Some("1.0.0".into()), ..plain() }.is_legacy_format());
    assert!(RawFrontmatter { author: Some("a".into()), ..plain() }.is_legacy_format());
    assert!(RawFrontmatter { tags: Some(vec![]), ..plain() }.is_legacy_format());
    assert!(RawFrontmatter { resources: Some(vec![]), ..plain() }.is_legacy_format());
}
