use empire_core::cache::Cache;
use empire_core::cache::CacheError;
use empire_core::cache::MessageRole;
use empire_core::cache::MessageStatus;
use empire_core::cache::parse_role;
use empire_core::cache::parse_status;

fn seeded_cache() -> Cache {
    let mut c = Cache::new();
    c.insert_project(1, String::from("Alpha"), None, None, 10).unwrap();
    c.insert_conversation(100, Some(1), String::from("First"), 11).unwrap();
    c.insert_conversation(200, None, String::from("Second"), 12).unwrap();
    c
}

#[test]
fn message_into_missing_conversation_is_rejected() {
    let mut c = Cache::new();
    let r = c.insert_message(
        1,
        999,
        "user",
        String::from("hello"),
        None,
        "complete",
        20,
    );
    assert_eq!(r, Err(CacheError::MissingConversation));
    assert!(!c.has_message_row(1));
}

#[test]
fn three_messages_drive_the_aggregates() {
    let mut c = seeded_cache();
    c.insert_message(1, 100, "user", String::from("a"), None, "complete", 21).unwrap();
    c.insert_message(2, 100, "assistant", String::from("b"), None, "complete", 22).unwrap();
    c.insert_message(3, 100, "user", String::from("c"), None, "complete", 23).unwrap();
    let row = c.get_conversation(100).unwrap();
    assert_eq!(row.message_count, 3);
    assert_eq!(row.last_message_at, Some(23));
    assert_eq!(row.updated_at, 23);
    let other = c.get_conversation(200).unwrap();
    assert_eq!(other.message_count, 0);
    assert_eq!(other.last_message_at, None);
}

#[test]
fn delete_conversation_cascades_to_its_messages_only() {
    let mut c = seeded_cache();
    c.insert_message(1, 100, "user", String::from("a"), None, "complete", 21).unwrap();
    c.insert_message(2, 100, "assistant", String::from("b"), None, "complete", 22).unwrap();
    c.insert_message(3, 200, "user", String::from("c"), None, "complete", 23).unwrap();
    assert!(c.delete_conversation(100));
    assert!(c.get_conversation(100).is_none());
    assert!(!c.has_message_row(1));
    assert!(!c.has_message_row(2));
    assert!(c.has_message_row(3));
    assert!(c.get_conversation(200).is_some());
}

#[test]
fn delete_absent_conversation_is_noop() {
    let mut c = seeded_cache();
    assert!(!c.delete_conversation(999));
    assert!(c.get_conversation(100).is_some());
    assert!(c.get_conversation(200).is_some());
}

#[test]
fn delete_project_nulls_conversations_and_cascades_files() {
    let mut c = seeded_cache();
    c.insert_project_file(
        7,
        1,
        String::from("notes.txt"),
        String::from("/files/notes.txt"),
        Some(42),
        Some(String::from("text/plain")),
        13,
    )
    .unwrap();
    assert!(c.delete_project(1, 30));
    assert!(!c.has_project_row(1));
    assert!(!c.has_file_row(7));
    let conv = c.get_conversation(100).unwrap();
    assert_eq!(conv.project_id, None);
    assert_eq!(conv.updated_at, 30);
    let other = c.get_conversation(200).unwrap();
    assert_eq!(other.project_id, None);
    assert_eq!(other.updated_at, 12);
}

#[test]
fn system_role_is_rejected() {
    let mut c = seeded_cache();
    let r = c.insert_message(
        1,
        100,
        "system",
        String::from("you are helpful"),
        None,
        "complete",
        21,
    );
    assert_eq!(r, Err(CacheError::InvalidRole));
    assert!(!c.has_message_row(1));
    assert_eq!(c.get_conversation(100).unwrap().message_count, 0);
}

#[test]
fn unknown_status_is_rejected() {
    let mut c = seeded_cache();
    let r = c.insert_message(1, 100, "user", String::from("x"), None, "queued", 21);
    assert_eq!(r, Err(CacheError::InvalidStatus));
    assert!(!c.has_message_row(1));
}

#[test]
fn duplicate_ids_are_rejected() {
    let mut c = seeded_cache();
    assert_eq!(
        c.insert_project(1, String::from("Again"), None, None, 14),
        Err(CacheError::DuplicateId)
    );
    assert_eq!(
        c.insert_conversation(100, None, String::from("Again"), 14),
        Err(CacheError::DuplicateId)
    );
    c.insert_message(1, 100, "user", String::from("a"), None, "complete", 15).unwrap();
    assert_eq!(
        c.insert_message(1, 100, "user", String::from("b"), None, "complete", 16),
        Err(CacheError::DuplicateId)
    );
    assert_eq!(c.get_conversation(100).unwrap().message_count, 1);
}

#[test]
fn conversation_with_missing_project_is_rejected() {
    let mut c = Cache::new();
    let r = c.insert_conversation(5, Some(99), String::from("orphan"), 10);
    assert_eq!(r, Err(CacheError::MissingProject));
    assert!(c.get_conversation(5).is_none());
}

#[test]
fn file_with_missing_project_is_rejected() {
    let mut c = Cache::new();
    let r = c.insert_project_file(
        7,
        99,
        String::from("a.txt"),
        String::from("/a.txt"),
        None,
        None,
        10,
    );
    assert_eq!(r, Err(CacheError::MissingProject));
    assert!(!c.has_file_row(7));
}

#[test]
fn users_are_inserted_and_deduplicated() {
    let mut c = Cache::new();
    c.insert_user(1, String::from("a@example.com"), None, None, 9).unwrap();
    assert!(c.has_user_row(1));
    assert_eq!(
        c.insert_user(1, String::from("b@example.com"), None, None, 9),
        Err(CacheError::DuplicateId)
    );
}

#[test]
fn settings_upsert_overwrites_value() {
    let mut c = Cache::new();
    c.set_setting(String::from("theme"), String::from("\"dark\""), 10);
    assert_eq!(c.get_setting("theme"), Some(String::from("\"dark\"")));
    c.set_setting(String::from("theme"), String::from("\"light\""), 11);
    assert_eq!(c.get_setting("theme"), Some(String::from("\"light\"")));
    assert_eq!(c.settings_count(), 1);
    assert_eq!(c.get_setting("unset"), None);
}

#[test]
fn update_title_keeps_aggregates() {
    let mut c = seeded_cache();
    c.insert_message(1, 100, "user", String::from("a"), None, "complete", 21).unwrap();
    assert!(c.update_conversation_title(100, String::from("Renamed"), 40));
    let row = c.get_conversation(100).unwrap();
    assert_eq!(row.title, String::from("Renamed"));
    assert_eq!(row.updated_at, 40);
    assert_eq!(row.message_count, 1);
    assert_eq!(row.last_message_at, Some(21));
    assert!(!c.update_conversation_title(999, String::from("x"), 41));
}

#[test]
fn sync_marker_is_recorded() {
    let mut c = seeded_cache();
    let before = c.get_conversation(100).unwrap();
    assert_eq!(before.synced_at, None);
    assert!(c.mark_conversation_synced(100, 50));
    let after = c.get_conversation(100).unwrap();
    assert_eq!(after.synced_at, Some(50));
    assert_eq!(after.updated_at, 50);
}

#[test]
fn role_and_status_domains_parse_exactly() {
    assert_eq!(parse_role("user"), Some(MessageRole::User));
    assert_eq!(parse_role("assistant"), Some(MessageRole::Assistant));
    assert_eq!(parse_role("system"), None);
    assert_eq!(parse_role(""), None);
    assert_eq!(parse_status("sending"), Some(MessageStatus::Sending));
    assert_eq!(parse_status("streaming"), Some(MessageStatus::Streaming));
    assert_eq!(parse_status("complete"), Some(MessageStatus::Complete));
    assert_eq!(parse_status("error"), Some(MessageStatus::Failed));
    assert_eq!(parse_status("done"), None);
}

#[test]
fn timeline_lists_messages_in_insertion_order() {
    let mut c = seeded_cache();
    c.insert_message(9, 100, "user", String::from("a"), None, "complete", 21).unwrap();
    c.insert_message(4, 200, "user", String::from("b"), None, "complete", 22).unwrap();
    c.insert_message(6, 100, "assistant", String::from("c"), None, "complete", 23).unwrap();
    assert_eq!(c.message_ids_for(100), vec![9, 6]);
    assert_eq!(c.message_ids_for(200), vec![4]);
    assert_eq!(c.message_ids_for(999), Vec::<u64>::new());
}
