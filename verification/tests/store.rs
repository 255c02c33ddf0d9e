use password_manager::store::{PasswordEntry, RecordStore};
use password_manager::text::text_eq;

fn entry(service: &str, username: &str, password: &str) -> PasswordEntry {
    PasswordEntry {
        service: service.to_string(),
        username: username.to_string(),
        password: password.to_string(),
    }
}

#[test]
fn text_eq_compares_texts() {
    assert!(text_eq("", ""));
    assert!(text_eq("github", "github"));
    assert!(!text_eq("github", "gitlab"));
    assert!(!text_eq("github", "github "));
    assert!(!text_eq("", "a"));
    assert!(text_eq("日本", "日本"));
}

#[test]
fn new_store_is_empty() {
    let store = RecordStore::new();
    assert_eq!(store.len(), 0);
    assert!(store.is_empty());
    assert_eq!(store.get("github"), None);
    assert!(store.list().is_empty());
}

#[test]
fn upsert_then_get() {
    let mut store = RecordStore::new();
    store.upsert("github".to_string(), "alice".to_string(), "Secr3t!".to_string());
    assert_eq!(store.len(), 1);
    assert!(!store.is_empty());
    assert_eq!(store.get("github"), Some(&entry("github", "alice", "Secr3t!")));
    assert_eq!(store.get("gitlab"), None);
    assert_eq!(store.entry_at(0), &entry("github", "alice", "Secr3t!"));
}

#[test]
fn upsert_overwrites_the_record_of_a_service() {
    let mut store = RecordStore::new();
    store.upsert("github".to_string(), "a".to_string(), "one".to_string());
    store.upsert("github".to_string(), "b".to_string(), "two".to_string());
    assert_eq!(store.len(), 1);
    assert_eq!(store.get("github"), Some(&entry("github", "b", "two")));
    let listed = store.list();
    assert_eq!(listed, vec![("github".to_string(), "b".to_string())]);
}

#[test]
fn upsert_keeps_the_place_of_a_service() {
    let mut store = RecordStore::new();
    store.upsert("a".to_string(), "1".to_string(), "x".to_string());
    store.upsert("b".to_string(), "2".to_string(), "y".to_string());
    store.upsert("c".to_string(), "3".to_string(), "z".to_string());
    store.upsert("a".to_string(), "4".to_string(), "w".to_string());
    assert_eq!(
        store.list(),
        vec![
            ("a".to_string(), "4".to_string()),
            ("b".to_string(), "2".to_string()),
            ("c".to_string(), "3".to_string()),
        ]
    );
}

#[test]
fn delete_removes_a_record() {
    let mut store = RecordStore::new();
    store.upsert("a".to_string(), "1".to_string(), "x".to_string());
    store.upsert("b".to_string(), "2".to_string(), "y".to_string());
    store.upsert("c".to_string(), "3".to_string(), "z".to_string());
    assert!(store.delete("b"));
    assert_eq!(store.len(), 2);
    assert_eq!(store.get("b"), None);
    assert_eq!(
        store.list(),
        vec![("a".to_string(), "1".to_string()), ("c".to_string(), "3".to_string())]
    );
}

#[test]
fn delete_of_an_absent_service_changes_nothing() {
    let mut store = RecordStore::new();
    assert!(!store.delete("github"));
    assert_eq!(store.len(), 0);
    store.upsert("github".to_string(), "alice".to_string(), "Secr3t!".to_string());
    assert!(!store.delete("gitlab"));
    assert_eq!(store.len(), 1);
    assert!(store.delete("github"));
    assert!(!store.delete("github"));
    assert_eq!(store.len(), 0);
}

#[test]
fn list_hands_out_no_password() {
    let mut store = RecordStore::new();
    store.upsert("github".to_string(), "alice".to_string(), "Secr3t!".to_string());
    store.upsert("mail".to_string(), "bob".to_string(), "hunter2".to_string());
    let listed = store.list();
    assert_eq!(listed.len(), 2);
    for (service, username) in &listed {
        for password in ["Secr3t!", "hunter2"] {
            assert!(!service.contains(password));
            assert!(!username.contains(password));
        }
    }
}
