use micro_proxy::state::{directory_hash, to_hex, HashEntry, StateManager};

#[test]
fn test_state_manager_new() {
    let manager = StateManager::new("/tmp/state.yml");
    assert_eq!(manager.state_file_path(), "/tmp/state.yml");
}

#[test]
fn test_state_manager_needs_rebuild() {
    let mut manager = StateManager::new("unused.yml");

    assert!(manager.needs_rebuild("test-app", "hash123"));

    manager.update_state("test-app", "hash123".to_string(), true, 1_700_000_000);

    assert!(!manager.needs_rebuild("test-app", "hash123"));

    assert!(manager.needs_rebuild("test-app", "hash456"));
}

#[test]
fn test_state_manager_remove_and_list() {
    let mut manager = StateManager::new("unused.yml");
    manager.update_state("a", "1".to_string(), true, 1);
    manager.update_state("b", "2".to_string(), false, 2);
    assert_eq!(manager.get_all_states().len(), 2);
    manager.remove_state("a");
    assert!(manager.get_state("a").is_none());
    assert_eq!(manager.get_state("b").unwrap().hash, "2");
    assert_eq!(manager.get_state("b").unwrap().last_built, 2);
}

fn entry(name: &str, path: &str, content: Option<&str>) -> HashEntry {
    HashEntry {
        file_name: name.to_string(),
        path_bytes: path.as_bytes().to_vec(),
        content: content.map(|c| c.as_bytes().to_vec()),
    }
}

#[test]
fn test_directory_hash_of_nothing_is_sha256_of_empty_input() {
    assert_eq!(
        directory_hash(&[]),
        "e3b0c44298fc1c149afbf4c8996fb92427ae41e4649b934ca495991b7852b855"
    );
}

#[test]
fn test_directory_hash_changes_with_content_and_skips_git_entry() {
    let a = directory_hash(&[entry("d", "d", None), entry("f", "d/f", Some("content1"))]);
    let b = directory_hash(&[entry("d", "d", None), entry("f", "d/f", Some("content1_modified"))]);
    assert_ne!(a, b);
    let c = directory_hash(&[
        entry("d", "d", None),
        entry(".git", "d/.git", None),
        entry("f", "d/f", Some("content1")),
    ]);
    assert_eq!(a, c);
    assert_eq!(a.len(), 64);
}

#[test]
fn test_to_hex() {
    assert_eq!(to_hex(&[0x00, 0x0f, 0xa5, 0xff]), "000fa5ff");
}
