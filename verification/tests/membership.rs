use pingbot::database::Database;
use pingbot::lists::create_reply;
use pingbot::membership::{add_reply, join_list, join_reply, kick_reply, leave_list, leave_reply, not_allowed};
use pingbot::structures::{JoinResult, PERMISSION};

fn store() -> Database {
    let mut db = Database::new();
    db.add_guild(1).unwrap();
    create_reply(&mut db, 1, "games", true);
    create_reply(&mut db, 1, "closed", true);
    db.set_joinable(2, PERMISSION::DENY);
    db
}

#[test]
fn join_then_leave() {
    let mut db = store();
    assert_eq!(join_list(&mut db, 1, "games", 9, false), JoinResult::Succes);
    assert_eq!(db.get_members_in_list(1), vec![9]);
    assert_eq!(join_list(&mut db, 1, "games", 9, false), JoinResult::AlreadyMember);
    assert_eq!(db.get_members_in_list(1), vec![9]);
    assert_eq!(leave_list(&mut db, 1, "games", 9, false), JoinResult::Succes);
    assert!(db.get_members_in_list(1).is_empty());
    assert_eq!(leave_list(&mut db, 1, "games", 9, false), JoinResult::AlreadyMember);
    assert!(db.well_formed());
}

#[test]
fn closed_lists_need_a_moderator() {
    let mut db = store();
    assert_eq!(join_list(&mut db, 1, "closed", 9, false), JoinResult::MissingPerms);
    assert!(db.get_members_in_list(2).is_empty());
    assert_eq!(join_list(&mut db, 1, "closed", 9, true), JoinResult::Succes);
    assert_eq!(leave_list(&mut db, 1, "closed", 9, false), JoinResult::MissingPerms);
    assert_eq!(db.get_members_in_list(2), vec![9]);
}

#[test]
fn unknown_lists() {
    let mut db = store();
    assert_eq!(join_list(&mut db, 1, "none", 9, false), JoinResult::ListDoesNotExist);
    assert_eq!(leave_list(&mut db, 1, "none", 9, false), JoinResult::ListDoesNotExist);
    assert_eq!(join_list(&mut db, 2, "games", 9, false), JoinResult::ListDoesNotExist);
}

#[test]
fn join_reply_lists_each_outcome() {
    let mut db = store();
    let names = vec!["games".to_string(), "games".to_string(), "closed".to_string(), "none".to_string()];
    let r = join_reply(&mut db, 1, 9, false, 4, &names);
    assert_eq!(
        r.text,
        "Joining the following 4 lists:\nAdded to list games\nYou already joined the list games\nYou do not have permission to join the list closed.\nThe list none does not exist"
    );
    assert!(r.ephemeral);
}

#[test]
fn leave_reply_lists_each_outcome() {
    let mut db = store();
    join_list(&mut db, 1, "games", 9, false);
    let names = vec!["games".to_string(), "games".to_string(), "closed".to_string(), "none".to_string()];
    let r = leave_reply(&mut db, 1, 9, false, 4, &names);
    assert_eq!(
        r.text,
        "Leaving the following 4 lists:\nRemoved from list games\nYou were not in the list games\nYou do not have permission to leave the list closed\nThe list none does not exist"
    );
}

#[test]
fn moderators_add_and_kick() {
    let mut db = store();
    let names = vec!["closed".to_string()];
    let r = add_reply(&mut db, 1, true, Some(42), 2, &names);
    assert_eq!(r.text, "Attempting to add user with id 42 to 1 lists:\nAdded to list closed");
    assert!(!r.ephemeral);
    assert_eq!(db.get_members_in_list(2), vec![42]);
    let r = add_reply(&mut db, 1, true, Some(42), 2, &names);
    assert_eq!(r.text, "Attempting to add user with id 42 to 1 lists:\nUser was already in list closed");
    let r = kick_reply(&mut db, 1, true, Some(42), 2, &names);
    assert_eq!(r.text, "Attempting to remove user with id 42 from 1 lists:\nRemoved from list closed");
    assert!(db.get_members_in_list(2).is_empty());
    let r = kick_reply(&mut db, 1, true, Some(42), 2, &names);
    assert_eq!(r.text, "Attempting to remove user with id 42 from 1 lists:\nThis person was not in the list closed");
}

#[test]
fn add_and_kick_refusals() {
    let mut db = store();
    let names = vec!["games".to_string()];
    let r = add_reply(&mut db, 1, false, Some(42), 2, &names);
    assert_eq!(r.text, not_allowed().text);
    assert!(r.ephemeral);
    let r = add_reply(&mut db, 1, true, None, 1, &names);
    assert_eq!(r.text, "Missing user parameter.");
    let r = kick_reply(&mut db, 1, false, None, 1, &names);
    assert_eq!(r.text, "You do not have permission to use this command.");
    assert!(db.get_members_in_list(1).is_empty());
}
