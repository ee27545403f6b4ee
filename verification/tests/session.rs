use ccline::input::StatusInput;
use ccline::session::{
    agent_name, cache_session_id, cached_session_name, session_cache_file_name, session_id_ok,
    AgentEntry,
};

fn with_sid(sid: Option<&str>) -> StatusInput {
    StatusInput {
        model_display_name: None,
        version: None,
        session_id: sid.map(String::from),
        project_dir: None,
        current_dir: None,
        cwd: None,
    }
}

#[test]
fn session_ids_for_file_names() {
    assert!(session_id_ok("3f2a-99B0"));
    assert!(session_id_ok(""));
    assert!(!session_id_ok("../etc"));
    assert!(!session_id_ok("a b"));
    assert!(!session_id_ok("é"));
}

#[test]
fn cache_session_id_needs_valid_id() {
    assert_eq!(cache_session_id(&with_sid(Some("abc-1"))), Some("abc-1".to_string()));
    assert_eq!(cache_session_id(&with_sid(Some("a/b"))), None);
    assert_eq!(cache_session_id(&with_sid(None)), None);
}

#[test]
fn cache_file_name() {
    assert_eq!(session_cache_file_name("abc"), "cc-session-name-abc.txt");
}

#[test]
fn cached_name_is_trimmed_and_nonempty() {
    assert_eq!(cached_session_name("  src-09\n"), Some("src-09".to_string()));
    assert_eq!(cached_session_name(" \n"), None);
    assert_eq!(cached_session_name(""), None);
}

#[test]
fn agent_name_from_first_matching_agent() {
    let agents = vec![
        AgentEntry { session_id: Some("x".into()), name: Some("other".into()) },
        AgentEntry { session_id: None, name: Some("nosid".into()) },
        AgentEntry { session_id: Some("s1".into()), name: None },
        AgentEntry { session_id: Some("s1".into()), name: Some("later".into()) },
        AgentEntry { session_id: Some("s2".into()), name: Some("two".into()) },
    ];
    assert_eq!(agent_name(&agents, "s2"), "two");
    assert_eq!(agent_name(&agents, "s1"), "");
    assert_eq!(agent_name(&agents, "zz"), "");
    assert_eq!(agent_name(&Vec::new(), "s2"), "");
}
