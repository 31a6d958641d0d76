use echo_agent::plugin::{
    is_variable_name, sanitize, substitute_env_vars, wanted_env_vars, InstallSource,
    PluginComponents, PluginDependency, PluginManifest, PluginScope, PluginVariables,
};
use echo_agent::plugin_registry::{
    already_installed, check_clone_url, check_manifest, component_paths, copies_directory,
    manifest_path, no_manifest, PathState, PluginRegistry,
};
use echo_agent::table::Table;

const AGENT_DIR: &str = "/home/user/.echo-agent";

fn test_registry(tmp: &str) -> PluginRegistry {
    PluginRegistry::with_paths(
        format!("{tmp}/registry.json"),
        format!("{tmp}/data"),
        Some(format!("{tmp}/project")),
    )
}

fn manifest(name: &str, description: &str, dependencies: &[&str]) -> PluginManifest {
    PluginManifest {
        name: name.to_string(),
        version: "1.0.0".to_string(),
        description: description.to_string(),
        keywords: vec![],
        dependencies: dependencies
            .iter()
            .map(|d| PluginDependency { name: d.to_string(), version: None })
            .collect(),
        components: PluginComponents::default(),
    }
}

#[test]
fn test_scope_resolve_user() {
    let dir = PluginScope::User.resolve_dir(AGENT_DIR, None);
    assert!(dir.contains(".echo-agent/plugins"));
}

#[test]
fn test_scope_resolve_project() {
    let dir = PluginScope::Project.resolve_dir(AGENT_DIR, Some("/home/user/my-project"));
    assert_eq!(
        dir,
        "/home/user/my-project/.echo-agent/plugins"
    );
}

#[test]
fn test_scope_resolve_local() {
    let dir = PluginScope::Local.resolve_dir(AGENT_DIR, Some("/home/user/my-project"));
    assert_eq!(
        dir,
        "/home/user/my-project/.echo-agent/plugins.local"
    );
}

#[test]
fn test_install_source_parse_local() {
    let src = InstallSource::parse("/home/user/my-plugin");
    assert!(!src.is_git());
}

#[test]
fn test_install_source_parse_git() {
    let src = InstallSource::parse("https://github.com/echo/plugin.git");
    assert!(src.is_git());
}

#[test]
fn test_scope_from_arg() {
    assert_eq!(PluginScope::from_arg("user"), Some(PluginScope::User));
    assert_eq!(PluginScope::from_arg("project"), Some(PluginScope::Project));
    assert_eq!(PluginScope::from_arg("local"), Some(PluginScope::Local));
    assert_eq!(PluginScope::from_arg("invalid"), None);
}

#[test]
fn test_substitute_builtin_vars() {
    let vars = PluginVariables {
        plugin_root: "/home/user/.echo-agent/plugins/my-plugin".into(),
        plugin_data: "/home/user/.echo-agent/plugins/data/my-plugin".into(),
        project_dir: "/home/user/my-project".into(),
        user_config: Table::new(),
    };

    let input = "run ${ECHO_PLUGIN_ROOT}/scripts/start.sh";
    let result = vars.substitute(input, &Table::new());
    assert!(result.contains("/home/user/.echo-agent/plugins/my-plugin/scripts/start.sh"));
    assert!(!result.contains("${ECHO_PLUGIN_ROOT}"));
}

#[test]
fn test_substitute_user_config() {
    let mut config = Table::new();
    config.insert(
        "api_endpoint".to_string(),
        "http://localhost:9090".to_string(),
    );

    let vars = PluginVariables {
        plugin_root: "/tmp/plugin".into(),
        plugin_data: "/tmp/data".into(),
        project_dir: "/tmp/project".into(),
        user_config: config,
    };

    let input = "connect to ${user_config.api_endpoint}";
    let result = vars.substitute(input, &Table::new());
    assert_eq!(result, "connect to http://localhost:9090");
}

#[test]
fn test_resolve_path() {
    let vars = PluginVariables::new(
        "test",
        "/home/user/.echo-agent/plugins/test",
        "/home/user/project",
        AGENT_DIR,
    );

    assert_eq!(
        vars.resolve_path("./skills/my-skill"),
        "/home/user/.echo-agent/plugins/test/skills/my-skill"
    );
}

#[test]
fn test_data_dir_sanitization() {
    let dir = PluginVariables::data_dir_for("my-plugin@marketplace", AGENT_DIR);
    assert!(dir.contains("my-plugin-marketplace"));
    assert!(!dir.contains('@'));
}

#[test]
fn test_substitute_env_vars() {
    let mut env = Table::new();
    env.insert("TEST_ECHO_VAR".to_string(), "hello".to_string());
    let result = substitute_env_vars("value is ${TEST_ECHO_VAR}", &env);
    assert_eq!(result, "value is hello");
}

#[test]
fn test_unknown_env_var_preserved() {
    let result = substitute_env_vars("${UNKNOWN_VAR_XYZ_12345}", &Table::new());
    assert_eq!(result, "${UNKNOWN_VAR_XYZ_12345}");
}

#[test]
fn wanted_variables_are_named() {
    assert_eq!(wanted_env_vars("${A} and ${B_2}"), vec!["A", "B_2"]);
    assert!(wanted_env_vars("no variables").is_empty());
    assert!(is_variable_name("PATH_2"));
    assert!(!is_variable_name("a-b"));
    assert_eq!(sanitize("a@b/c"), "a-b-c");
}

#[test]
fn variables_are_exported() {
    let mut config = Table::new();
    config.insert("api_key".to_string(), "k".to_string());
    let vars = PluginVariables::new("p", "/root", "/project", AGENT_DIR).with_user_config(config);
    let exports = vars.exports();
    assert!(exports.contains(&("ECHO_PLUGIN_ROOT".to_string(), "/root".to_string())));
    assert!(exports.contains(&("ECHO_PLUGIN_OPTION_API_KEY".to_string(), "k".to_string())));
    assert_eq!(vars.substitute_own("${user_config.api_key}"), "k");
}

#[test]
fn sources_are_written_back() {
    assert_eq!(InstallSource::parse("/a/b").text(), "/a/b");
    let git = InstallSource::parse("https://github.com/echo/plugin.git");
    assert_eq!(git.text(), "https://github.com/echo/plugin.git");
    assert_eq!(PluginScope::all().len(), 3);
    assert_eq!(PluginScope::Local.as_str(), "local");
}

#[test]
fn test_scan_empty_dir() {
    let mut reg = test_registry("/tmp");
    let count = reg.scan_scope_dir(PluginScope::Local, vec![]);
    assert_eq!(count, 0);
}

#[test]
fn test_scan_discovers_plugins() {
    let mut reg = PluginRegistry::with_paths("/r.json".to_string(), "/data".to_string(), None);
    let found = vec![
        (manifest("plugin-b", "B", &[]), "/plugins/plugin-b".to_string()),
        (manifest("plugin-a", "A", &[]), "/plugins/plugin-a".to_string()),
    ];
    let count = reg.scan_scope_dir(PluginScope::User, found);
    assert_eq!(count, 2);
    assert_eq!(reg.count(), 2);
    let names: Vec<&str> = reg.list().iter().map(|e| e.manifest.name.as_str()).collect();
    assert_eq!(names, vec!["plugin-a", "plugin-b"]);
    assert_eq!(reg.get("plugin-a").unwrap().root, "/plugins/plugin-a");
}

#[test]
fn test_enable_disable() {
    let mut reg = test_registry("/tmp");
    reg.add(manifest("toggle-me", "T", &[]), "/plugins/toggle-me".to_string(), PluginScope::User);
    assert!(reg.get("toggle-me").unwrap().enabled);

    reg.disable("toggle-me").unwrap();
    assert!(!reg.get("toggle-me").unwrap().enabled);
    assert!(reg.list_enabled().is_empty());

    reg.enable("toggle-me").unwrap();
    assert!(reg.get("toggle-me").unwrap().enabled);
    assert!(reg.enable("missing").is_err());
    assert!(reg.disable("missing").is_err());
}

#[test]
fn test_uninstall() {
    let mut reg = test_registry("/tmp");
    reg.add(manifest("remove-me", "R", &[]), "/plugins/remove-me".to_string(), PluginScope::User);
    assert_eq!(reg.count(), 1);

    let removal = reg.uninstall("remove-me", false).unwrap();
    assert_eq!(reg.count(), 0);
    assert_eq!(removal.root, "/plugins/remove-me");
    assert!(removal.data_dir.is_some());
    assert!(reg.uninstall("remove-me", false).is_err());
}

#[test]
fn test_dependency_resolution() {
    let mut reg = test_registry("/tmp");
    // Create plugins with dependencies: A depends on B, B depends on C
    for (name, needs) in [
        ("plugin-c", vec![]),
        ("plugin-b", vec!["plugin-c"]),
        ("plugin-a", vec!["plugin-b"]),
    ] {
        reg.add(manifest(name, "x", &needs), format!("/tmp/{name}"), PluginScope::User);
    }

    let sorted = reg.resolve_dependencies().unwrap();
    // C should come before B, B before A
    let pos_a = sorted.iter().position(|x| x == "plugin-a").unwrap();
    let pos_b = sorted.iter().position(|x| x == "plugin-b").unwrap();
    let pos_c = sorted.iter().position(|x| x == "plugin-c").unwrap();
    assert!(pos_c < pos_b);
    assert!(pos_b < pos_a);
}

#[test]
fn test_circular_dependency_detected() {
    let mut reg = test_registry("/tmp");
    for (name, needs) in [("a", "b"), ("b", "a")] {
        reg.add(manifest(name, "x", &[needs]), format!("/tmp/{name}"), PluginScope::User);
    }
    assert!(reg.resolve_dependencies().is_err());
}

#[test]
fn test_search() {
    let mut reg = test_registry("/tmp");
    let mut m = manifest("data-analysis", "Data analysis with polars", &[]);
    m.keywords = vec!["data".into(), "polars".into(), "visualization".into()];
    reg.add(m, "/tmp/data-analysis".to_string(), PluginScope::User);

    assert_eq!(reg.search("polars").len(), 1);
    assert_eq!(reg.search("data").len(), 1);
    assert_eq!(reg.search("nothing").len(), 0);
}

#[test]
fn test_resolve_components() {
    let root = "/plugins/resolve-test";
    let mut m = manifest("resolve-test", "Test", &[]);
    m.components.skills = Some(vec!["./skills/".into()]);
    m.components.hooks = Some(vec!["./hooks/hooks.yaml".into()]);
    m.components.mcp_servers = Some(vec!["./.mcp.json".into()]);
    let mut facts = Table::new();
    for path in component_paths(&m.components, root) {
        let state = if path.contains("skills") {
            PathState::Directory(vec![])
        } else if path.contains("hooks.yaml") || path.contains(".mcp.json") {
            PathState::File
        } else {
            PathState::Missing
        };
        facts.insert(path, state);
    }
    let mut reg = test_registry("/tmp");
    reg.add(m, root.to_string(), PluginScope::User);

    let resolved = reg.resolve_components("resolve-test", &facts).unwrap();
    assert_eq!(resolved.skill_dirs.len(), 1);
    assert!(resolved.hooks_file.is_some());
    assert!(resolved.mcp_config_file.is_some());
    assert!(reg.resolve_components("missing", &facts).is_err());
}

#[test]
fn saved_states_are_restored() {
    let mut reg = test_registry("/tmp");
    reg.add(manifest("a", "A", &[]), "/tmp/a".to_string(), PluginScope::Project);
    reg.restore(&vec![("a".to_string(), false), ("gone".to_string(), true)]);
    assert!(!reg.get("a").unwrap().enabled);
    assert!(reg.get("a").unwrap().scope == PluginScope::Project);
    assert_eq!(reg.list().len(), 1);
    assert!(reg.state_file().ends_with("registry.json"));
    reg.clear();
    assert_eq!(reg.count(), 0);
}

#[test]
fn only_public_https_urls_are_cloned() {
    assert!(check_clone_url("https://github.com/echo/plugin.git").is_ok());
    assert!(check_clone_url("http://github.com/echo/plugin.git").is_err());
    assert!(check_clone_url("https://user@10.0.0.1:8443/plugin.git").is_err());
    assert!(check_clone_url("https://u:p@10.0.0.1/plugin.git").is_err());
    assert!(check_clone_url("https://u:p@example.com:8443/plugin.git").is_ok());
    assert!(check_clone_url("https://172.32.0.1/plugin.git").is_ok());
    assert!(check_clone_url("https://192.168.0.1/plugin.git").is_err());
}

#[test]
fn installs_are_explained() {
    assert!(check_manifest(&vec![]).is_ok());
    assert!(check_manifest(&vec!["no name".to_string()]).unwrap_err().contains("no name"));
    assert!(already_installed("p", "/d").contains('p'));
    assert!(no_manifest("/src").contains("/src"));
    assert_eq!(manifest_path("/src"), "/src/.echo-plugin/manifest.yaml");
    assert!(!copies_directory(".git"));
    assert!(copies_directory("skills"));
}
