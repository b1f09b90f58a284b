use pingbot::database::Database;
use pingbot::lists::{alias_reply, compose_list, create_reply, get_reply, menu_filter, remove_alias_reply, remove_reply};
use pingbot::membership::join_list;
use pingbot::structures::{JoinResult, PERMISSION};

fn store() -> Database {
    let mut db = Database::new();
    db.add_guild(1).unwrap();
    db.add_guild(2).unwrap();
    db
}

#[test]
fn new_store_is_well_formed_and_empty() {
    let db = Database::new();
    assert!(db.well_formed());
    assert!(db.guilds.is_empty() && db.lists.is_empty() && db.aliases.is_empty());
}

#[test]
fn create_list_needs_a_moderator() {
    let mut db = store();
    let r = create_reply(&mut db, 1, "games", false);
    assert_eq!(r.text, "You do not have permission to use this command.");
    assert!(r.ephemeral);
    assert!(db.lists.is_empty());
}

#[test]
fn create_list_adds_a_named_list() {
    let mut db = store();
    let r = create_reply(&mut db, 1, "games", true);
    assert_eq!(r.text, "Creating list games.");
    assert!(!r.ephemeral);
    assert_eq!(db.get_list_id_by_name("games", 1), Some(1));
    assert_eq!(db.get_list_id_by_name("games", 2), None);
    assert_eq!(db.get_list_names(1), vec!["games".to_string()]);
    assert_eq!(db.get_list_permissions(1), (-1, PERMISSION::NEUTRAL, PERMISSION::NEUTRAL));
    assert!(db.well_formed());
}

#[test]
fn remove_list_and_missing_list() {
    let mut db = store();
    create_reply(&mut db, 1, "games", true);
    assert_eq!(join_list(&mut db, 1, "games", 77, false), JoinResult::Succes);
    let r = remove_reply(&mut db, 1, "nothing", true);
    assert_eq!(r.text, "Removing list nothing.List does not exist.");
    let r = remove_reply(&mut db, 1, "games", true);
    assert_eq!(r.text, "Removed list.");
    assert_eq!(db.get_list_id_by_name("games", 1), None);
    assert!(db.memberships.is_empty());
    assert!(db.aliases.is_empty());
    assert!(db.well_formed());
}

#[test]
fn aliases_name_the_same_list() {
    let mut db = store();
    create_reply(&mut db, 1, "games", true);
    let r = alias_reply(&mut db, 1, "games", "gaming", true);
    assert_eq!(r.text, "Added alias gaming to list games.");
    assert_eq!(db.get_list_id_by_name("gaming", 1), Some(1));
    assert_eq!(db.get_list_names(1), vec!["games".to_string(), "gaming".to_string()]);
    let r = alias_reply(&mut db, 1, "nope", "other", true);
    assert_eq!(r.text, "There is no list named other to alias to.");
}

#[test]
fn the_last_alias_stays() {
    let mut db = store();
    create_reply(&mut db, 1, "games", true);
    alias_reply(&mut db, 1, "games", "gaming", true);
    let r = remove_alias_reply(&mut db, 1, "games", true);
    assert_eq!(r.text, "Removed alias games.");
    assert_eq!(db.get_list_names(1), vec!["gaming".to_string()]);
    let r = remove_alias_reply(&mut db, 1, "gaming", true);
    assert_eq!(r.text, "You cannot remove the last alias of a list.");
    assert_eq!(db.get_list_names(1), vec!["gaming".to_string()]);
    let r = remove_alias_reply(&mut db, 1, "zzz", true);
    assert_eq!(r.text, "There is no list named zzz to alias to.");
}

#[test]
fn get_shows_the_callers_lists() {
    let mut db = store();
    create_reply(&mut db, 1, "games", true);
    create_reply(&mut db, 1, "news", true);
    alias_reply(&mut db, 1, "games", "gaming", true);
    join_list(&mut db, 1, "news", 5, false);
    join_list(&mut db, 1, "games", 5, false);
    let r = get_reply(&mut db, 1, 5);
    assert_eq!(r.text, "You are in the following lists:\nnews\ngames, gaming");
    assert!(r.ephemeral);
    let r = get_reply(&mut db, 1, 6);
    assert_eq!(r.text, "You are in the following lists:");
}

#[test]
fn list_pages() {
    let mut db = store();
    let p = compose_list(&mut db, 1, 0, "");
    assert_eq!(p.title, "No lists found.");
    assert_eq!(p.color, (255, 0, 0));
    assert!(p.menu.is_none());
    create_reply(&mut db, 1, "news", true);
    create_reply(&mut db, 1, "games", true);
    db.set_description(2, "play together");
    let p = compose_list(&mut db, 1, 0, "");
    assert_eq!(p.title, "Showing lists 1-2 out of 2:");
    assert_eq!(p.color, (127, 255, 160));
    assert_eq!(p.description.unwrap(), "- games\n    play together\n- news");
    let (id, labels) = p.menu.unwrap();
    assert_eq!(id, "|");
    assert_eq!(labels, vec!["1:3".to_string()]);
    let p = compose_list(&mut db, 1, 0, "gam");
    assert_eq!(p.title, "Showing lists 1-1 out of 1:");
    assert_eq!(p.menu.unwrap().0, "gam");
    let p = compose_list(&mut db, 1, 3, "");
    assert_eq!(p.title, "List page out of range.");
    assert_eq!(p.color, (255, 127, 28));
}

#[test]
fn hidden_lists_are_not_listed() {
    let mut db = store();
    create_reply(&mut db, 1, "secret", true);
    db.set_visible(1, false);
    assert_eq!(compose_list(&mut db, 1, 0, "").title, "No lists found.");
}

#[test]
fn page_menu_filter() {
    assert_eq!(menu_filter("|"), "");
    assert_eq!(menu_filter("gam"), "gam");
}
