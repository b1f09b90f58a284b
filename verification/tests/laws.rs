use pingbot::database::Database;
use pingbot::membership::join_list;
use pingbot::structures::{LOGCONDITION, LOGTRIGGER, PERMISSION};

fn store() -> Database {
    let mut db = Database::new();
    db.add_guild(1).unwrap();
    db.add_guild(2).unwrap();
    db
}

#[test]
fn role_settings_read_back_after_several_setters() {
    let mut db = store();
    assert_eq!(db.get_role_permissions(1, 40), (PERMISSION::NEUTRAL, PERMISSION::NEUTRAL, false));
    db.set_role_canping(1, 40, PERMISSION::DENY).unwrap();
    db.set_role_ignore_cooldown(1, 40, true).unwrap();
    db.set_role_canpropose(1, 40, PERMISSION::ALLOW).unwrap();
    db.set_role_canping(1, 40, PERMISSION::ALLOW).unwrap();
    assert_eq!(db.get_role_permissions(1, 40), (PERMISSION::ALLOW, PERMISSION::ALLOW, true));
    db.set_role_canpropose(1, 41, PERMISSION::DENY).unwrap();
    assert_eq!(db.get_role_permissions(1, 41), (PERMISSION::DENY, PERMISSION::NEUTRAL, false));
    assert_eq!(db.get_role_permissions(1, 40), (PERMISSION::ALLOW, PERMISSION::ALLOW, true));
}

#[test]
fn channel_settings_read_back_after_several_setters() {
    let mut db = store();
    assert_eq!(db.get_channel_permissions(1, 90), (false, PERMISSION::NEUTRAL, PERMISSION::NEUTRAL));
    db.set_channel_proposing(90, PERMISSION::DENY);
    db.set_channel_public_visible(90, true);
    db.set_channel_mentioning(90, PERMISSION::ALLOW);
    db.set_channel_proposing(90, PERMISSION::ALLOW);
    assert_eq!(db.get_channel_permissions(1, 90), (true, PERMISSION::ALLOW, PERMISSION::ALLOW));
    assert_eq!(db.get_channel_permissions(2, 90), (true, PERMISSION::ALLOW, PERMISSION::ALLOW));
    assert_eq!(db.get_channel_permissions(1, 91), (false, PERMISSION::NEUTRAL, PERMISSION::NEUTRAL));
}

#[test]
fn an_added_response_is_found_and_others_stay() {
    let mut db = store();
    let first = db.add_response(1, LOGTRIGGER::RoleAdd(5), 300, "a").unwrap();
    assert_eq!(db.has_response(1, LOGTRIGGER::RoleRemove(5)), None);
    let second = db.add_response(1, LOGTRIGGER::RoleRemove(5), 300, "b").unwrap();
    assert_ne!(first, second);
    assert_eq!(db.has_response(1, LOGTRIGGER::RoleRemove(5)), Some(second));
    assert_eq!(db.has_response(1, LOGTRIGGER::RoleAdd(5)), Some(first));
    assert_eq!(db.has_response(2, LOGTRIGGER::RoleRemove(5)), None);
    assert_eq!(db.has_response(1, LOGTRIGGER::RoleRemove(6)), None);
    assert_eq!(db.has_response(1, LOGTRIGGER::JoinServer()), None);
}

#[test]
fn a_condition_added_then_removed_leaves_the_rest() {
    let mut db = store();
    let id = db.add_response(1, LOGTRIGGER::JoinServer(), 300, "hi").unwrap();
    db.add_response_condition(id, LOGCONDITION::HasRole(7), true);
    let before = db.get_response_conditions(id);
    assert_eq!(before.len(), 1);
    db.add_response_condition(id, LOGCONDITION::HasRole(8), false);
    let after = db.get_response_conditions(id);
    assert_eq!(after.len(), 2);
    assert_eq!(after[0], before[0]);
    assert_eq!(after[1].0, LOGCONDITION::HasRole(8));
    assert!(!after[1].1);
    assert_ne!(after[1].2, before[0].2);
    db.remove_response_condition(after[1].2);
    assert_eq!(db.get_response_conditions(id), before);
}

#[test]
fn the_search_count_is_the_number_of_lists_found() {
    let mut db = store();
    let a = db.add_list(1, "tango").unwrap();
    let b = db.add_list(1, "tandem").unwrap();
    db.add_list(1, "other").unwrap();
    assert!(Database::add_alias(&mut db, a, "tanker"));
    assert!(Database::add_alias(&mut db, b, "tan"));
    let found = db.get_lists_by_search(1, "TAN", true).unwrap();
    assert_eq!(found.len(), 4);
    let mut ids: Vec<u64> = found.iter().map(|l| l.id).collect();
    ids.sort();
    ids.dedup();
    assert_eq!(ids, vec![a, b]);
    assert_eq!(db.count_lists_by_search(1, "TAN", true), 2);
}

#[test]
fn joinable_and_member_names_split_the_search() {
    let mut db = store();
    for name in ["red", "green", "blue", "grey"] {
        db.add_list(1, name).unwrap();
    }
    join_list(&mut db, 1, "green", 9, false);
    join_list(&mut db, 1, "grey", 9, false);
    let all = db.get_list_aliases_by_search(1, 0, 100, "", true);
    let member = db.get_list_membership_by_search(1, 9, 100, "", true);
    let joinable = db.get_list_joinable_by_search(1, 9, 100, "", true);
    assert_eq!(member, vec!["green".to_string(), "grey".to_string()]);
    assert_eq!(joinable, vec!["blue".to_string(), "red".to_string()]);
    let mut both: Vec<String> = member.iter().chain(joinable.iter()).cloned().collect();
    both.sort();
    assert_eq!(both, all);
}
