use echo_agent::error::AppError;
use echo_agent::ids::new_id;
use echo_agent::sessions::{
    delete_meta, new_conversation, new_session, sort_session_metas, upsert, AgentRegistry,
    AgentRegistryPaths, CreateSessionInput, SessionMeta,
};

fn meta(id: &str, updated_at_ms: u128) -> SessionMeta {
    SessionMeta {
        id: id.to_string(),
        title: format!("session-{id}"),
        model: "test-model".to_string(),
        system_prompt: "You are testing".to_string(),
        work_dir: None,
        created_at_ms: 10,
        updated_at_ms,
    }
}

fn ids(metas: &[SessionMeta]) -> Vec<&str> {
    metas.iter().map(|m| m.id.as_str()).collect()
}

#[test]
fn session_meta_store_upserts_and_sorts_by_updated_at_desc() {
    let mut loaded = upsert(vec![], meta("old", 100));
    loaded = upsert(loaded, meta("new", 300));
    loaded = upsert(loaded, meta("middle", 200));
    assert_eq!(ids(&loaded), vec!["new", "middle", "old"]);
}

#[test]
fn session_meta_store_replaces_existing_session() {
    let loaded = upsert(vec![], meta("same", 100));
    let mut updated = meta("same", 500);
    updated.title = "updated title".to_string();
    let loaded = upsert(loaded, updated);

    assert_eq!(loaded.len(), 1);
    assert_eq!(loaded[0].title, "updated title");
    assert_eq!(loaded[0].updated_at_ms, 500);
}

#[test]
fn session_meta_store_deletes_session() {
    let loaded = upsert(upsert(vec![], meta("keep", 100)), meta("delete", 200));
    let loaded = delete_meta(loaded, "delete");

    assert_eq!(loaded.len(), 1);
    assert_eq!(loaded[0].id, "keep");
}

#[test]
fn agent_registry_rehydrates_sessions_from_metadata_store() {
    let registry = AgentRegistry::new(vec![meta("first", 100), meta("second", 300)]);
    let loaded = registry.list();
    assert_eq!(ids(&loaded), vec!["second", "first"]);
    assert_eq!(loaded[0].title, "session-second");
    assert_eq!(loaded[0].model, "test-model");
    assert_eq!(loaded[0].system_prompt, "You are testing");
    assert!(registry.get("second").is_ok());
}

#[test]
fn sessions_that_are_not_there_are_refused() {
    let mut registry = AgentRegistry::new(vec![]);
    assert!(matches!(registry.get("x"), Err(AppError::SessionNotFound(_))));
    assert!(registry.delete("x").is_err());
    assert!(registry.touch("x", 1).is_err());
    assert!(registry.update_model("x", "m", 1).is_err());
}

#[test]
fn touching_and_deleting_a_session() {
    let mut registry = AgentRegistry::new(vec![meta("a", 100)]);
    registry.insert(meta("b", 200));
    assert_eq!(registry.touch("a", 900).ok().unwrap().updated_at_ms, 900);
    assert_eq!(ids(&registry.list()), vec!["a", "b"]);
    let changed = registry.update_model("b", "other", 901).ok().unwrap();
    assert_eq!((changed.model.as_str(), changed.updated_at_ms), ("other", 901));
    registry.delete("a").ok().unwrap();
    assert_eq!(ids(&registry.list()), vec!["b"]);
}

#[test]
fn equal_times_keep_their_order() {
    let sorted = sort_session_metas(vec![meta("x", 5), meta("y", 9), meta("z", 5)]);
    assert_eq!(ids(&sorted), vec!["y", "x", "z"]);
}

#[test]
fn new_sessions_carry_the_input() {
    let made = new_session(
        CreateSessionInput {
            title: "t".to_string(),
            model: "m".to_string(),
            system_prompt: "p".to_string(),
            max_tokens: None,
            work_dir: Some("/w".to_string()),
        },
        77,
    );
    assert_eq!(made.created_at_ms, 77);
    assert_eq!(made.updated_at_ms, 77);
    assert_eq!(made.work_dir.as_deref(), Some("/w"));
    assert_eq!(made.id.len(), 36);
    let conversation = new_conversation(&made.id, "t");
    assert_eq!(conversation.conversation_id, made.id);
}

#[test]
fn identifiers_are_uuids() {
    let a = new_id();
    assert_ne!(a, new_id());
    assert_eq!(a.len(), 36);
    assert_eq!(a.as_bytes()[14], b'4');
}

#[test]
fn files_of_the_registry() {
    let paths = AgentRegistryPaths::from_app_data_dir("/data");
    assert_eq!(paths.sessions_path, "/data/sessions.json");
    assert_eq!(paths.conversations_path, "/data/conversations.sqlite");
    assert_eq!(paths.root_dir().as_deref(), Some("/data"));
}
