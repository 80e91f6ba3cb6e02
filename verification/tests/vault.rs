use keepass::config::DatabaseConfig;
use keepass::db::{Entry, Group, Node, Value};
use keepass::{Database, DatabaseKey};
use nlauncher::vault::{
    extract_entries, filter, filter_lowered, traverse_group, BackendReport, Session, VaultEntry,
    VaultError,
    VaultItem, VaultManager, VaultNode, SESSION_DURATION_SECS,
};

fn item(title: Option<&str>, user: Option<&str>, password: Option<&str>, otp: Option<&str>) -> VaultItem {
    VaultItem {
        title: title.map(|s| s.to_string()),
        username: user.map(|s| s.to_string()),
        password: password.map(|s| s.to_string()),
        otp: otp.map(|s| s.to_string()),
    }
}

fn leaf(title: &str, user: &str) -> VaultNode {
    VaultNode::Entry(item(Some(title), Some(user), Some("pw"), None))
}

fn credential(title: &str, user: &str) -> VaultEntry {
    VaultEntry {
        title: title.to_string(),
        username: user.to_string(),
        password: format!("secret of {}", title),
        totp: None,
    }
}

fn titles(entries: &[VaultEntry]) -> Vec<&str> {
    entries.iter().map(|e| e.title.as_str()).collect()
}

fn stored_entry(title: &str, user: &str, password: &str) -> Entry {
    let mut entry = Entry::new();
    entry.fields.insert("Title".to_string(), Value::Unprotected(title.to_string()));
    entry.fields.insert("UserName".to_string(), Value::Unprotected(user.to_string()));
    entry.fields.insert("Password".to_string(), Value::Protected(password.as_bytes().into()));
    entry
}

fn node_of(node: &Node) -> VaultNode {
    match node {
        Node::Group(group) => VaultNode::Group(group.children.iter().map(node_of).collect()),
        Node::Entry(entry) => VaultNode::Entry(item(
            entry.get_title(),
            entry.get_username(),
            entry.get_password(),
            entry.get("otp"),
        )),
    }
}

fn report_of(password: &str, bytes: &[u8]) -> BackendReport {
    match Database::parse(bytes, DatabaseKey::new().with_password(password)) {
        Ok(database) => BackendReport::Opened {
            handle: None,
            nodes: database.root.children.iter().map(node_of).collect(),
        },
        Err(error) => BackendReport::Failed(error.to_string()),
    }
}

fn sample_database(password: &str) -> Vec<u8> {
    let mut database = Database::new(DatabaseConfig::default());
    database.root.children.push(Node::Entry(stored_entry("Mail", "me@example.org", "m-pw")));
    let mut work = Group::new("Work");
    let mut with_otp = stored_entry("Wiki", "editor", "w-pw");
    with_otp.fields.insert("otp".to_string(), Value::Unprotected("otpauth://totp/x".to_string()));
    work.children.push(Node::Entry(with_otp));
    let mut deeper = Group::new("Servers");
    deeper.children.push(Node::Entry(stored_entry("Build box", "root", "b-pw")));
    work.children.push(Node::Group(deeper));
    database.root.children.push(Node::Group(work));
    database.root.children.push(Node::Entry(Entry::new()));
    let mut bytes = Vec::new();
    database.save(&mut bytes, DatabaseKey::new().with_password(password)).unwrap();
    bytes
}

#[test]
fn the_session_lasts_ten_minutes() {
    assert_eq!(SESSION_DURATION_SECS, 600);
}

#[test]
fn a_new_manager_is_locked() {
    let mut manager = VaultManager::new();
    assert_eq!(manager.session(), None);
    assert!(!manager.unlock_pending());
    assert!(!manager.is_unlocked(0, true));
    assert!(!manager.is_unlocked(1_000_000, true));
}

#[test]
fn a_session_is_valid_until_its_time_is_up() {
    let session = Session { unlocked_at: 1000, backend_handle: Some(77) };
    let mut manager = VaultManager::with_session(Some(session));
    assert!(manager.is_unlocked(1000, true));
    assert!(manager.is_unlocked(1599, true));
    assert_eq!(manager.session(), Some(session));
    assert!(!manager.is_unlocked(1600, true));
}

#[test]
fn an_expired_session_is_dropped_when_it_is_looked_at() {
    let session = Session { unlocked_at: 1000, backend_handle: None };
    let mut manager = VaultManager::with_session(Some(session));
    assert!(!manager.is_unlocked(1601, true));
    assert_eq!(manager.session(), None);
    assert!(!manager.is_unlocked(1001, true));
}

#[test]
fn a_session_whose_backend_is_gone_is_invalid_at_once() {
    let session = Session { unlocked_at: 1000, backend_handle: Some(4711) };
    let mut manager = VaultManager::with_session(Some(session));
    assert!(!manager.is_unlocked(1001, false));
    assert_eq!(manager.session(), None);
    assert!(!manager.is_unlocked(1001, true));
}

#[test]
fn a_session_from_the_future_has_not_run_out() {
    let session = Session { unlocked_at: 5000, backend_handle: None };
    let mut manager = VaultManager::with_session(Some(session));
    assert!(manager.is_unlocked(4000, true));
}

#[test]
fn locking_drops_the_session() {
    let mut manager = VaultManager::with_session(Some(Session { unlocked_at: 10, backend_handle: None }));
    manager.lock();
    assert_eq!(manager.session(), None);
    assert!(!manager.is_unlocked(11, true));
}

#[test]
fn only_one_unlock_attempt_at_a_time() {
    let mut manager = VaultManager::new();
    assert!(manager.begin_unlock());
    assert!(manager.unlock_pending());
    assert!(!manager.begin_unlock());
    assert!(!manager.begin_unlock());
    let _ = manager.finish_unlock(BackendReport::Unreachable, 5);
    assert!(!manager.unlock_pending());
    assert!(manager.begin_unlock());
}

#[test]
fn a_successful_unlock_starts_a_session_and_gives_the_entries() {
    let mut manager = VaultManager::new();
    assert!(manager.begin_unlock());
    let nodes = vec![leaf("Mail", "me"), VaultNode::Group(vec![leaf("Bank", "me2")])];
    let outcome = manager.finish_unlock(BackendReport::Opened { handle: Some(9), nodes }, 1234);
    let entries = outcome.ok().unwrap();
    assert_eq!(titles(&entries), vec!["Mail", "Bank"]);
    assert_eq!(manager.session(), Some(Session { unlocked_at: 1234, backend_handle: Some(9) }));
    assert!(manager.is_unlocked(1234 + 599, true));
    assert!(!manager.is_unlocked(1234 + 600, true));
}

#[test]
fn a_locked_backend_gives_guidance_and_no_session() {
    let mut manager = VaultManager::new();
    assert!(manager.begin_unlock());
    let outcome = manager.finish_unlock(BackendReport::Locked, 50);
    let error = outcome.err().unwrap();
    assert_eq!(error, VaultError::BackendUnavailable);
    assert_eq!(
        error.message(),
        "Vault backend is locked or not reachable. Unlock it and try again."
    );
    assert_eq!(manager.session(), None);
    assert!(!manager.is_unlocked(51, true));
}

#[test]
fn an_unreachable_backend_is_told_apart_from_other_failures() {
    let mut manager = VaultManager::new();
    let unreachable = manager.finish_unlock(BackendReport::Unreachable, 50).err().unwrap();
    assert_eq!(unreachable, VaultError::BackendUnavailable);
    let other = manager.finish_unlock(BackendReport::Failed("disk on fire".to_string()), 50).err().unwrap();
    assert_eq!(other, VaultError::Other("disk on fire".to_string()));
    assert_eq!(other.message(), "disk on fire");
}

#[test]
fn a_failed_unlock_leaves_an_earlier_session_alone() {
    let session = Session { unlocked_at: 100, backend_handle: Some(1) };
    let mut manager = VaultManager::with_session(Some(session));
    assert!(manager.finish_unlock(BackendReport::Locked, 200).is_err());
    assert_eq!(manager.session(), Some(session));
    assert!(manager.finish_unlock(BackendReport::Failed("no".to_string()), 200).is_err());
    assert_eq!(manager.session(), Some(session));
}

#[test]
fn every_error_has_its_text() {
    assert_eq!(VaultError::Locked.message(), "Vault locked");
    assert_eq!(VaultError::UnlockPending.message(), "An unlock attempt is already under way.");
    assert_eq!(VaultError::Other("x".to_string()).message(), "x");
}

#[test]
fn missing_fields_get_their_defaults() {
    let entry = VaultEntry::from_item(&item(None, None, None, None));
    assert_eq!(entry.title, "Untitled");
    assert_eq!(entry.username, "");
    assert_eq!(entry.password, "");
    assert_eq!(entry.totp, None);
}

#[test]
fn present_fields_are_carried_over() {
    let entry = VaultEntry::from_item(&item(Some("Mail"), Some("me"), Some("pw"), Some("otpauth://x")));
    assert_eq!(entry.title, "Mail");
    assert_eq!(entry.username, "me");
    assert_eq!(entry.password, "pw");
    assert_eq!(entry.totp.as_deref(), Some("otpauth://x"));
    let copy = entry.duplicate();
    assert_eq!(copy.title, "Mail");
    assert_eq!(copy.password, "pw");
    assert_eq!(copy.totp.as_deref(), Some("otpauth://x"));
}

#[test]
fn a_tree_is_flattened_depth_first() {
    let tree = vec![
        leaf("1", "a"),
        VaultNode::Group(vec![
            leaf("2", "b"),
            VaultNode::Group(vec![leaf("3", "c"), VaultNode::Group(Vec::new()), leaf("4", "d")]),
            leaf("5", "e"),
        ]),
        VaultNode::Group(Vec::new()),
        leaf("6", "f"),
    ];
    assert_eq!(titles(&extract_entries(&tree)), vec!["1", "2", "3", "4", "5", "6"]);
    assert!(extract_entries(&Vec::new()).is_empty());
}

#[test]
fn traversal_appends_to_what_is_already_there() {
    let mut entries = vec![credential("kept", "k")];
    traverse_group(&VaultNode::Group(vec![leaf("x", "u"), leaf("y", "v")]), &mut entries);
    assert_eq!(titles(&entries), vec!["kept", "x", "y"]);
    traverse_group(&leaf("z", "w"), &mut entries);
    assert_eq!(titles(&entries), vec!["kept", "x", "y", "z"]);
}

#[test]
fn entries_are_filtered_by_title_or_user_name() {
    let entries = vec![
        credential("GitHub", "octocat"),
        credential("Mail", "me@github.example"),
        credential("Bank", "saver"),
    ];
    assert_eq!(titles(&filter(&entries, "git")), vec!["GitHub", "Mail"]);
    assert_eq!(titles(&filter(&entries, "SAVER")), vec!["Bank"]);
    assert_eq!(titles(&filter(&entries, "nothing")), Vec::<&str>::new());
}

#[test]
fn the_password_is_not_searched() {
    let entries = vec![credential("Bank", "saver")];
    assert!(filter(&entries, "secret").is_empty());
}

#[test]
fn an_empty_fragment_keeps_every_entry() {
    let entries = vec![credential("b", "1"), credential("a", "2"), credential("b", "1")];
    assert_eq!(titles(&filter(&entries, "")), vec!["b", "a", "b"]);
}

#[test]
fn searching_needs_a_valid_session() {
    let entries = vec![credential("Mail", "me")];
    let mut locked = VaultManager::new();
    assert_eq!(locked.search("mail", &entries, 10, true).err(), Some(VaultError::Locked));
    let session = Session { unlocked_at: 0, backend_handle: None };
    let mut expired = VaultManager::with_session(Some(session));
    assert_eq!(expired.search("mail", &entries, 600, true).err(), Some(VaultError::Locked));
    assert_eq!(expired.session(), None);
    let mut open = VaultManager::with_session(Some(session));
    assert_eq!(titles(&open.search("MAIL", &entries, 599, true).ok().unwrap()), vec!["Mail"]);
    assert_eq!(open.session(), Some(session));
}

#[test]
fn reloading_needs_a_valid_session() {
    let mut locked = VaultManager::new();
    let report = BackendReport::Opened { handle: None, nodes: vec![leaf("Mail", "me")] };
    assert_eq!(
        locked.load_entries_from_existing_session(report, 10, true).err(),
        Some(VaultError::Locked)
    );
}

#[test]
fn reloading_fetches_the_entries_and_keeps_the_session() {
    let session = Session { unlocked_at: 100, backend_handle: Some(3) };
    let mut manager = VaultManager::with_session(Some(session));
    let report = BackendReport::Opened { handle: Some(99), nodes: vec![leaf("Mail", "me")] };
    let entries = manager.load_entries_from_existing_session(report, 300, true).ok().unwrap();
    assert_eq!(titles(&entries), vec!["Mail"]);
    assert_eq!(manager.session(), Some(session));
    let failed = manager.load_entries_from_existing_session(BackendReport::Locked, 300, true);
    assert_eq!(failed.err(), Some(VaultError::BackendUnavailable));
    assert_eq!(manager.session(), Some(session));
}

#[test]
fn the_items_of_a_database_become_entries() {
    let bytes = sample_database("correct horse");
    let mut manager = VaultManager::new();
    let entries = manager.unlock(report_of("correct horse", &bytes), 42).ok().unwrap();
    assert_eq!(titles(&entries), vec!["Mail", "Wiki", "Build box", "Untitled"]);
    assert_eq!(entries[0].username, "me@example.org");
    assert_eq!(entries[0].password, "m-pw");
    assert_eq!(entries[0].totp, None);
    assert_eq!(entries[1].totp.as_deref(), Some("otpauth://totp/x"));
    assert_eq!(entries[2].password, "b-pw");
    assert_eq!(entries[3].username, "");
    assert_eq!(entries[3].password, "");
    assert_eq!(manager.session(), Some(Session { unlocked_at: 42, backend_handle: None }));
}

#[test]
fn a_database_that_does_not_open_leaves_the_vault_locked() {
    let bytes = sample_database("correct horse");
    let mut manager = VaultManager::new();
    match manager.unlock(report_of("wrong horse", &bytes), 42) {
        Err(VaultError::Other(words)) => assert!(!words.is_empty()),
        _ => panic!("the database must not open"),
    }
    assert_eq!(manager.session(), None);
}

#[test]
fn unlocking_in_one_step_follows_the_answer_of_the_backend() {
    let mut manager = VaultManager::new();
    assert_eq!(manager.unlock(BackendReport::Locked, 5).err(), Some(VaultError::BackendUnavailable));
    assert_eq!(manager.unlock(BackendReport::Unreachable, 5).err(), Some(VaultError::BackendUnavailable));
    assert_eq!(manager.session(), None);
    let opened = BackendReport::Opened { handle: Some(8), nodes: vec![leaf("Mail", "me")] };
    assert_eq!(titles(&manager.unlock(opened, 7).ok().unwrap()), vec!["Mail"]);
    assert_eq!(manager.session(), Some(Session { unlocked_at: 7, backend_handle: Some(8) }));
}

#[test]
fn unlocking_is_refused_while_an_attempt_is_pending() {
    let mut manager = VaultManager::new();
    assert!(manager.begin_unlock());
    let opened = BackendReport::Opened { handle: None, nodes: vec![leaf("Mail", "me")] };
    assert_eq!(manager.unlock(opened, 42).err(), Some(VaultError::UnlockPending));
    assert_eq!(manager.session(), None);
    assert!(manager.unlock_pending());
}

fn searched_as(items: &[&str]) -> Vec<Vec<char>> {
    items.iter().map(|s| s.chars().collect()).collect()
}

#[test]
fn entries_are_picked_by_the_texts_they_are_searched_under() {
    let entries = vec![credential("GitHub", "octocat"), credential("Mail", "me"), credential("Bank", "saver")];
    let needle: Vec<char> = "git".chars().collect();
    let by_title = filter_lowered(
        &entries,
        &searched_as(&["github", "mail", "bank"]),
        &searched_as(&["octocat", "me", "saver"]),
        &needle,
    );
    assert_eq!(titles(&by_title), vec!["GitHub"]);
    let by_either = filter_lowered(
        &entries,
        &searched_as(&["github", "mail", "bank"]),
        &searched_as(&["octocat", "me", "legit"]),
        &needle,
    );
    assert_eq!(titles(&by_either), vec!["GitHub", "Bank"]);
    let as_they_are = filter_lowered(
        &entries,
        &searched_as(&["GitHub", "Mail", "Bank"]),
        &searched_as(&["octocat", "me", "saver"]),
        &needle,
    );
    assert!(as_they_are.is_empty());
}

#[test]
fn an_entry_without_both_searched_texts_is_left_out() {
    let entries = vec![credential("a", "x"), credential("b", "y"), credential("c", "z")];
    let picked = filter_lowered(&entries, &searched_as(&["a", "b", "c"]), &searched_as(&["x"]), &Vec::new());
    assert_eq!(titles(&picked), vec!["a"]);
    let picked = filter_lowered(&entries, &searched_as(&["a", "b"]), &searched_as(&["x", "y", "z", "w"]), &Vec::new());
    assert_eq!(titles(&picked), vec!["a", "b"]);
    assert!(filter_lowered(&entries, &Vec::new(), &Vec::new(), &Vec::new()).is_empty());
}
