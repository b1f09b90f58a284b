use pingbot::database::{AliasRow, Database, DbError, GuildRow};
use pingbot::lists::create_reply;
use pingbot::membership::join_list;
use pingbot::structures::{LOGCONDITION, LOGTRIGGER, PERMISSION};
use pingbot::suggest::{alias_suggestions, join_suggestions, leave_suggestions, list_suggestions};

fn store() -> Database {
    let mut db = Database::new();
    db.add_guild(1).unwrap();
    for name in ["alpha", "beta", "gamma", "delta", "epsilon", "zeta", "eta"] {
        create_reply(&mut db, 1, name, true);
    }
    db
}

#[test]
fn guilds_start_with_defaults_and_are_added_once() {
    let mut db = Database::new();
    db.add_guild(3).unwrap();
    db.add_guild(3).unwrap();
    assert_eq!(db.guilds.len(), 1);
    assert_eq!(db.get_guild_ping_data(3), (0, true, 1800));
    assert_eq!(db.get_propose_settings(3), (true, 86400, 8));
    assert_eq!(db.get_log_channel(3), Ok(None));
    assert_eq!(db.get_log_channel(4), Err(DbError::QueryReturnedNoRows));
}

#[test]
fn log_channel_errors() {
    let mut db = Database::new();
    db.add_guild(3).unwrap();
    assert_eq!(db.set_log_channel(3, None), Err(DbError::InvalidParameterCount(1, 2)));
    assert_eq!(db.set_log_channel(3, Some(u64::MAX)), Err(DbError::ToSqlConversion));
    assert_eq!(db.set_log_channel(3, Some(9)), Ok(()));
    assert_eq!(db.get_log_channel(3), Ok(Some(9)));
    assert_eq!(db.set_guild_canping(u64::MAX, false), Err(DbError::ToSqlConversion));
}

#[test]
fn a_broken_store_is_not_well_formed() {
    let mut db = Database::new();
    db.guilds.push(GuildRow {
        id: 1,
        general_canping: true,
        general_cooldown: 0,
        pingcooldown: 1800,
        general_propose: true,
        propose_threshold: 0,
        propose_timeout: 86400,
        log_channel: 0,
    });
    assert!(!db.well_formed());
    db.guilds[0].propose_threshold = 8;
    assert!(db.well_formed());
    create_reply(&mut db, 1, "x", true);
    db.lists[0].guild_id = 2;
    assert!(!db.well_formed());
}

#[test]
fn rows_a_table_holds_unique_are_not_there_twice() {
    let mut db = store();
    assert!(db.well_formed());
    let row = db.guilds[0];
    db.guilds.push(row);
    assert!(!db.well_formed());
    db.guilds.pop();
    join_list(&mut db, 1, "alpha", 9, false);
    let m = db.memberships[0];
    db.memberships.push(m);
    assert!(!db.well_formed());
    db.memberships.pop();
    let a = AliasRow { list_id: db.aliases[0].list_id, name: db.aliases[0].name.clone() };
    db.aliases.insert(0, a);
    assert!(!db.well_formed());
    db.aliases.remove(0);
    db.set_role_canping(1, 40, PERMISSION::DENY).unwrap();
    let r = db.role_settings[0];
    db.role_settings.push(r);
    assert!(!db.well_formed());
    db.role_settings.pop();
    db.set_channel_mentioning(90, PERMISSION::DENY);
    let c = db.channel_settings[0];
    db.channel_settings.push(c);
    assert!(!db.well_formed());
    db.channel_settings.pop();
    assert!(db.well_formed());
}

#[test]
fn suggestions_are_the_first_five_matches() {
    let mut db = store();
    assert_eq!(list_suggestions(&mut db, 1, "", false), vec!["alpha", "beta", "delta", "epsilon", "eta"]);
    assert_eq!(list_suggestions(&mut db, 1, "ta", false), vec!["beta", "delta", "eta", "zeta"]);
    db.set_pingable(1, PERMISSION::DENY);
    assert_eq!(list_suggestions(&mut db, 1, "a", false), vec!["beta", "delta", "eta", "gamma", "zeta"]);
    assert_eq!(list_suggestions(&mut db, 1, "alp", true), vec!["alpha"]);
    assert!(alias_suggestions(&mut db, 1, "", false).is_empty());
    assert_eq!(alias_suggestions(&mut db, 1, "alp", true), vec!["alpha"]);
}

#[test]
fn join_and_leave_suggestions() {
    let mut db = store();
    join_list(&mut db, 1, "beta", 9, false);
    assert_eq!(join_suggestions(&mut db, 1, 9, "eta", false), vec!["eta", "zeta"]);
    assert_eq!(leave_suggestions(&mut db, 1, 9, "", false), vec!["beta"]);
    db.set_joinable(3, PERMISSION::DENY);
    assert_eq!(join_suggestions(&mut db, 1, 9, "gam", false), Vec::<String>::new());
    assert_eq!(join_suggestions(&mut db, 1, 9, "gam", true), vec!["gamma"]);
}

#[test]
fn responses_with_conditions_are_kept() {
    let mut db = store();
    let id = db.add_response(1, LOGTRIGGER::JoinServer(), 5, "hi").unwrap();
    db.add_response_condition(id, LOGCONDITION::HasRole(2), false);
    assert_eq!(db.remove_response(1, LOGTRIGGER::JoinServer()), Err(DbError::ForeignKeyConstraint));
    db.remove_response_condition(1);
    assert_eq!(db.remove_response(1, LOGTRIGGER::JoinServer()), Ok(true));
    assert_eq!(db.remove_response(1, LOGTRIGGER::JoinServer()), Ok(false));
    assert_eq!(db.add_response(9, LOGTRIGGER::JoinServer(), 5, "x"), Err(DbError::ForeignKeyConstraint));
}

#[test]
fn lists_with_a_member() {
    let mut db = store();
    join_list(&mut db, 1, "gamma", 9, false);
    join_list(&mut db, 1, "alpha", 9, false);
    assert_eq!(db.get_lists_with_member(1, 9), Ok(vec![3, 1]));
    assert_eq!(db.get_lists_with_member(2, 9), Ok(vec![]));
    assert_eq!(db.count_lists_by_search(1, "ta", false), 4);
}
