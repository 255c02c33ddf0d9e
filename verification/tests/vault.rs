use password_manager::error::VaultError;
use password_manager::store::{PasswordEntry, RecordStore};
use password_manager::vault::{format_line, load_lines, parse_line, save_lines, DELIMITER};

fn entry(service: &str, username: &str, password: &str) -> PasswordEntry {
    PasswordEntry {
        service: service.to_string(),
        username: username.to_string(),
        password: password.to_string(),
    }
}

#[test]
fn delimiter_is_a_bar() {
    assert_eq!(DELIMITER, '|');
}

#[test]
fn format_line_gives_the_expected_line() {
    assert_eq!(
        format_line(&entry("github", "alice", "Secr3t!"), b"masterpw"),
        Ok("github|alice|3e041006560651".to_string())
    );
    assert_eq!(format_line(&entry("", "", ""), b"k"), Ok("||".to_string()));
}

#[test]
fn format_line_refuses_an_empty_key() {
    assert_eq!(
        format_line(&entry("github", "alice", "Secr3t!"), b""),
        Err(VaultError::InvalidKey)
    );
}

#[test]
fn parse_line_reads_three_fields() {
    assert_eq!(
        parse_line("github|alice|3e041006560651", b"masterpw"),
        Ok(Some(entry("github", "alice", "Secr3t!")))
    );
    assert_eq!(parse_line("||", b"k"), Ok(Some(entry("", "", ""))));
    assert_eq!(
        parse_line("séance|ålice|1ba8cf18181ca8dd190f", b"k"),
        Ok(Some(entry("séance", "ålice", "pässwörd")))
    );
}

#[test]
fn parse_line_passes_over_other_field_counts() {
    assert_eq!(parse_line("", b"k"), Ok(None));
    assert_eq!(parse_line("github", b"k"), Ok(None));
    assert_eq!(parse_line("github|alice", b"k"), Ok(None));
    assert_eq!(parse_line("github|alice|00|11", b"k"), Ok(None));
    assert_eq!(parse_line("|||", b"k"), Ok(None));
}

#[test]
fn parse_line_refuses_an_empty_key() {
    assert_eq!(parse_line("github|alice|00", b""), Err(VaultError::InvalidKey));
    assert_eq!(parse_line("github", b""), Err(VaultError::InvalidKey));
}

#[test]
fn parse_line_drops_malformed_digits() {
    assert_eq!(
        parse_line("github|alice|3ezz10", b"masterpw"),
        Ok(Some(entry("github", "alice", "Sc")))
    );
}

#[test]
fn save_then_load_reproduces_the_record() {
    let mut store = RecordStore::new();
    store.upsert("github".to_string(), "alice".to_string(), "Secr3t!".to_string());
    let lines = save_lines(&store, b"masterpw").unwrap();
    assert_eq!(lines, vec!["github|alice|3e041006560651".to_string()]);
    let mut loaded = RecordStore::new();
    assert_eq!(load_lines(&mut loaded, &lines, b"masterpw"), Ok(()));
    assert_eq!(loaded.len(), 1);
    assert_eq!(loaded.get("github"), Some(&entry("github", "alice", "Secr3t!")));
}

#[test]
fn save_then_load_reproduces_many_records_in_order() {
    let mut store = RecordStore::new();
    store.upsert("github".to_string(), "alice".to_string(), "Secr3t!".to_string());
    store.upsert("mail".to_string(), "bob".to_string(), "pässwörd".to_string());
    store.upsert("bank".to_string(), "".to_string(), "".to_string());
    let lines = save_lines(&store, b"masterpw").unwrap();
    assert_eq!(lines.len(), 3);
    let mut loaded = RecordStore::new();
    assert_eq!(load_lines(&mut loaded, &lines, b"masterpw"), Ok(()));
    assert_eq!(loaded.len(), 3);
    for i in 0..3 {
        assert_eq!(loaded.entry_at(i), store.entry_at(i));
    }
}

#[test]
fn save_of_an_empty_store_gives_no_line() {
    let store = RecordStore::new();
    assert_eq!(save_lines(&store, b"k"), Ok(Vec::new()));
}

#[test]
fn save_and_load_refuse_an_empty_key() {
    let mut store = RecordStore::new();
    assert_eq!(save_lines(&store, b""), Err(VaultError::InvalidKey));
    store.upsert("github".to_string(), "alice".to_string(), "Secr3t!".to_string());
    assert_eq!(save_lines(&store, b""), Err(VaultError::InvalidKey));
    let lines = vec!["mail|bob|00".to_string()];
    assert_eq!(load_lines(&mut store, &lines, b""), Err(VaultError::InvalidKey));
    assert_eq!(store.len(), 1);
    assert_eq!(store.get("mail"), None);
}

#[test]
fn load_omits_a_line_with_two_fields() {
    let lines = vec![
        "github|alice|3e041006560651".to_string(),
        "mail|bob".to_string(),
        "".to_string(),
        "bank|carol|00".to_string(),
    ];
    let mut store = RecordStore::new();
    assert_eq!(load_lines(&mut store, &lines, b"masterpw"), Ok(()));
    assert_eq!(store.len(), 2);
    assert_eq!(store.get("mail"), None);
    assert_eq!(store.get("github"), Some(&entry("github", "alice", "Secr3t!")));
    assert_eq!(store.get("bank"), Some(&entry("bank", "carol", "m")));
}

#[test]
fn load_lets_the_later_line_win() {
    let lines = vec![
        "github|alice|3e04".to_string(),
        "mail|bob|3e".to_string(),
        "github|carol|3e".to_string(),
    ];
    let mut store = RecordStore::new();
    assert_eq!(load_lines(&mut store, &lines, b"masterpw"), Ok(()));
    assert_eq!(store.len(), 2);
    assert_eq!(store.entry_at(0), &entry("github", "carol", "S"));
    assert_eq!(store.entry_at(1), &entry("mail", "bob", "S"));
}

#[test]
fn a_delimiter_in_a_service_is_not_read_back() {
    let mut store = RecordStore::new();
    store.upsert("git|hub".to_string(), "alice".to_string(), "Secr3t!".to_string());
    let lines = save_lines(&store, b"masterpw").unwrap();
    assert_eq!(lines, vec!["git|hub|alice|3e041006560651".to_string()]);
    let mut loaded = RecordStore::new();
    assert_eq!(load_lines(&mut loaded, &lines, b"masterpw"), Ok(()));
    assert_eq!(loaded.len(), 0);
}
