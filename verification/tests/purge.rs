use pingbot::purge::purge_messages_valid;
use pingbot::database::Database;
use pingbot::purge::{chosen_ids, purge_log, purge_menu, purge_refusal, purge_target, LoggedMessage, RecentMessage};

fn store(log: Option<u64>) -> Database {
    let mut db = Database::new();
    db.add_guild(1).unwrap();
    if let Some(c) = log {
        db.set_log_channel(1, Some(c)).unwrap();
    }
    db
}

fn recent(id: u64, content: &str, timestamp: i64) -> RecentMessage {
    RecentMessage { id, content: content.to_string(), timestamp }
}

#[test]
fn purge_refusals() {
    let db = store(None);
    assert_eq!(purge_refusal(&db, 1, false, true).unwrap().text, "You do not have permission to use this command.");
    let r = purge_refusal(&db, 1, true, false).unwrap();
    assert_eq!(r.text, "Bot lacks permissions for purge");
    assert!(!r.ephemeral);
    assert_eq!(purge_refusal(&db, 1, true, true).unwrap().text, "No log channel specified");
    let db = store(Some(77));
    assert!(purge_refusal(&db, 1, true, true).is_none());
    assert_eq!(purge_target(&db, 1, true), Some(77));
    assert_eq!(purge_target(&db, 1, false), None);
    assert_eq!(purge_target(&store(None), 1, true), None);
}

#[test]
fn the_menu_offers_recent_messages_oldest_first() {
    let now: i64 = 2_000_000;
    let long = "é".repeat(60);
    let messages = vec![
        recent(30, "newest", now - 10),
        recent(20, "", now - 20),
        recent(15, &long, now - 30),
        recent(10, "too old", now - 1_206_001),
    ];
    let m = purge_menu(&messages, now, Some(("ann", 5))).ok().unwrap();
    assert_eq!(m.custom_id, "ann - 5");
    assert_eq!(m.max_values, 3);
    assert_eq!(
        m.entries,
        vec![
            ("é".repeat(40), "15".to_string()),
            ("Empty".to_string(), "20".to_string()),
            ("newest".to_string(), "30".to_string()),
        ]
    );
    let exactly = vec![recent(1, "x", now - 1_206_000)];
    assert_eq!(purge_menu(&exactly, now, None).ok().unwrap().custom_id, "-");
}

#[test]
fn the_menu_needs_a_recent_message() {
    let messages = vec![recent(10, "old", 0)];
    match purge_menu(&messages, 2_000_000, None) {
        Err(r) => {
            assert_eq!(r.text, "No recent messages to log or purge");
            assert!(r.ephemeral);
        },
        Ok(_) => panic!("offered an old message"),
    }
    assert!(purge_menu(&Vec::new(), 0, None).is_err());
}

#[test]
fn at_most_eighteen_can_be_chosen() {
    let messages: Vec<RecentMessage> = (0..25u64).map(|k| recent(k, "m", 100)).collect();
    let m = purge_menu(&messages, 100, None).ok().unwrap();
    assert_eq!(m.entries.len(), 25);
    assert_eq!(m.max_values, 18);
    assert_eq!(m.entries[0].1, "24");
}

#[test]
fn chosen_values_are_ids() {
    assert_eq!(chosen_ids(&vec!["12".to_string(), "7".to_string()]), vec![12, 7]);
}

#[test]
fn the_log_lists_the_chosen_messages() {
    let long: String = "a".repeat(970) + &"b".repeat(30);
    let messages = vec![
        LoggedMessage { id: 3, author: "cy".to_string(), content: "third".to_string() },
        LoggedMessage { id: 2, author: "bo".to_string(), content: long.clone() },
        LoggedMessage { id: 1, author: "al".to_string(), content: String::new() },
    ];
    let (title, fields) = purge_log("ann - 5", &messages, &vec![1, 2]);
    assert_eq!(title, "Delete log: ann - 5");
    assert_eq!(
        fields,
        vec![
            ("al".to_string(), "Embed / image".to_string()),
            ("bo".to_string(), "a".repeat(970)),
            ("continued...".to_string(), "b".repeat(30)),
        ]
    );
    let (_, none) = purge_log("-", &messages, &vec![]);
    assert!(none.is_empty());
}

#[test]
fn long_texts_must_cut_on_a_character() {
    assert!(purge_messages_valid(&vec![recent(1, &"é".repeat(60), 0), recent(2, "short", 0)]));
    let odd = "a".to_string() + &"é".repeat(60);
    assert!(!purge_messages_valid(&vec![recent(1, &odd, 0)]));
    let short_odd = "a".to_string() + &"é".repeat(49);
    assert!(purge_messages_valid(&vec![recent(1, &short_odd, 0)]));
}
