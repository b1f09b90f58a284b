use pingbot::database::Database;
use pingbot::lists::create_reply;
use pingbot::membership::join_list;
use pingbot::ping::{ping_check, ping_reply, Cooldowns, ListInvalidReasons, PingCheck};
use pingbot::structures::PERMISSION;

fn store() -> Database {
    let mut db = Database::new();
    db.add_guild(1).unwrap();
    create_reply(&mut db, 1, "games", true);
    create_reply(&mut db, 1, "empty", true);
    join_list(&mut db, 1, "games", 6, false);
    join_list(&mut db, 1, "games", 5, false);
    db
}

fn names(ns: &[&str]) -> Vec<String> {
    ns.iter().map(|s| s.to_string()).collect()
}

fn check(db: &mut Database, cd: &mut Cooldowns, roles: &Vec<u64>, admin: bool, ns: &Vec<String>, t: u64) -> PingCheck {
    assert!(db.can_read_permissions(1, 9, roles));
    ping_check(db, cd, 1, 100, 9, roles, admin, ns, t)
}

#[test]
fn a_ping_mentions_the_present_members() {
    let mut db = store();
    let mut cd = Cooldowns::new();
    let ns = names(&["games"]);
    let c = check(&mut db, &mut cd, &vec![], false, &ns, 10_000);
    assert!(c.invalid.is_empty());
    assert_eq!(c.list_ids, vec![1]);
    assert_eq!(c.members, vec![5, 6]);
    let r = ping_reply(&mut cd, 1, &c, &vec![6, 5, 7], &ns, 10_000);
    assert_eq!(r.messages, vec!["Mentioning games with 2 members:\n<@5>, <@6>, ".to_string()]);
    assert!(!r.ephemeral);
    assert_eq!(cd.global.get(&1), Some(&10_000));
    assert_eq!(cd.local.get(&1), Some(&10_000));
}

#[test]
fn absent_members_are_left_out() {
    let mut db = store();
    let mut cd = Cooldowns::new();
    let ns = names(&["games", "empty"]);
    let c = check(&mut db, &mut cd, &vec![], false, &ns, 10_000);
    let r = ping_reply(&mut cd, 1, &c, &vec![6], &ns, 10_000);
    assert_eq!(r.messages, vec!["Mentioning games, empty with 1 members:\n<@6>, ".to_string()]);
}

#[test]
fn empty_lists() {
    let mut db = store();
    let mut cd = Cooldowns::new();
    let ns = names(&["empty"]);
    let c = check(&mut db, &mut cd, &vec![], false, &ns, 10_000);
    let r = ping_reply(&mut cd, 1, &c, &vec![5, 6], &ns, 10_000);
    assert_eq!(r.messages, vec!["These lists are empty.".to_string()]);
    assert_eq!(cd.local.get(&2), Some(&10_000));
}

#[test]
fn a_list_is_on_cooldown_after_a_ping() {
    let mut db = store();
    let mut cd = Cooldowns::new();
    let ns = names(&["games"]);
    let c = check(&mut db, &mut cd, &vec![], false, &ns, 10_000);
    ping_reply(&mut cd, 1, &c, &vec![5, 6], &ns, 10_000);
    let c = check(&mut db, &mut cd, &vec![], false, &ns, 10_001);
    assert_eq!(c.invalid, vec![("games".to_string(), ListInvalidReasons::OnLocalCooldown)]);
    let r = ping_reply(&mut cd, 1, &c, &vec![5, 6], &ns, 10_001);
    assert_eq!(
        r.messages,
        vec!["\nThe list games has been pinged recently, please try again later or exclude this list.".to_string()]
    );
    assert!(r.ephemeral);
    assert_eq!(cd.local.get(&1), Some(&10_000));
    // after the default list cooldown of 1800 seconds the list can be pinged again
    let c = check(&mut db, &mut cd, &vec![], false, &ns, 11_801);
    assert!(c.invalid.is_empty());
    // moderators skip the cooldown
    let c = check(&mut db, &mut cd, &vec![], true, &ns, 10_002);
    assert!(c.invalid.is_empty());
}

#[test]
fn unknown_and_closed_lists() {
    let mut db = store();
    db.set_pingable(2, PERMISSION::DENY);
    let mut cd = Cooldowns::new();
    let ns = names(&["nope", "empty"]);
    let c = check(&mut db, &mut cd, &vec![], false, &ns, 10_000);
    assert_eq!(
        c.invalid,
        vec![
            ("nope".to_string(), ListInvalidReasons::DoesNotExist),
            ("empty".to_string(), ListInvalidReasons::ListRestrictPing),
        ]
    );
    let r = ping_reply(&mut cd, 1, &c, &vec![], &ns, 10_000);
    assert_eq!(r.messages, vec!["\nThe list nope does not exist.\nThe list empty cannot be pinged.".to_string()]);
    assert!(cd.global.get(&1) == Some(&0));
}

#[test]
fn guild_and_role_restrictions() {
    let mut db = store();
    db.set_guild_canping(1, false).unwrap();
    let mut cd = Cooldowns::new();
    let ns = names(&["games"]);
    let c = check(&mut db, &mut cd, &vec![], false, &ns, 10_000);
    assert_eq!(c.invalid, vec![("all".to_string(), ListInvalidReasons::GuildRestrictPing)]);
    let r = ping_reply(&mut cd, 1, &c, &vec![], &ns, 10_000);
    assert_eq!(r.messages, vec!["\nYou do not have permission to ping in this server.".to_string()]);
    // a role that may ping lifts the guild's restriction
    db.set_role_canping(1, 50, PERMISSION::ALLOW).unwrap();
    let c = check(&mut db, &mut cd, &vec![50], false, &ns, 10_000);
    assert!(c.invalid.is_empty());
    // a role that may not ping refuses it
    db.set_role_canping(1, 51, PERMISSION::DENY).unwrap();
    let c = check(&mut db, &mut cd, &vec![51], false, &ns, 10_000);
    assert_eq!(c.invalid, vec![("all".to_string(), ListInvalidReasons::RoleRestrictPing)]);
    let r = ping_reply(&mut cd, 1, &c, &vec![], &ns, 10_000);
    assert_eq!(r.messages, vec!["One of your roles prevents you from using the ping command.\n".to_string()]);
}

#[test]
fn channel_restriction_and_global_cooldown() {
    let mut db = store();
    db.set_channel_mentioning(100, PERMISSION::DENY);
    db.set_guild_general_cooldown(1, 20_000).unwrap();
    let mut cd = Cooldowns::new();
    let ns = names(&["games"]);
    let c = check(&mut db, &mut cd, &vec![], false, &ns, 10_000);
    assert_eq!(
        c.invalid,
        vec![
            ("all".to_string(), ListInvalidReasons::ChannelRestrictPing),
            ("all".to_string(), ListInvalidReasons::OnGlobalCooldown),
        ]
    );
    let r = ping_reply(&mut cd, 1, &c, &vec![], &ns, 10_000);
    assert_eq!(
        r.messages,
        vec!["\nPings are not allowed in this channel.\nAnother ping has happed recently, please try again later.".to_string()]
    );
}

#[test]
fn long_pings_are_split() {
    let mut db = Database::new();
    db.add_guild(1).unwrap();
    create_reply(&mut db, 1, "big", true);
    let base: u64 = 100_000_000_000_000_000;
    for k in 0..200u64 {
        db.add_member(base + k, 1);
    }
    let mut cd = Cooldowns::new();
    let ns = names(&["big"]);
    let c = check(&mut db, &mut cd, &vec![], true, &ns, 10_000);
    assert_eq!(c.members.len(), 200);
    let present: Vec<u64> = (0..200u64).map(|k| base + k).collect();
    let r = ping_reply(&mut cd, 1, &c, &present, &ns, 10_000);
    assert!(r.messages.len() > 1);
    let all: String = r.messages.concat();
    let mut expected = "Mentioning big with 200 members:\n".to_string();
    for k in 0..200u64 {
        expected += &format!("<@{}>, ", base + k);
    }
    assert_eq!(all, expected);
    for m in &r.messages[..r.messages.len() - 1] {
        assert!(m.len() > 1940 && m.len() <= 1940 + 23);
    }
}

#[test]
fn the_guild_cooldown_follows_a_ping() {
    let mut db = store();
    db.set_guild_general_cooldown(1, 60).unwrap();
    let mut cd = Cooldowns::new();
    let ns = names(&["games"]);
    let c = check(&mut db, &mut cd, &vec![], false, &ns, 10_000);
    assert!(c.invalid.is_empty());
    ping_reply(&mut cd, 1, &c, &vec![5, 6], &ns, 10_000);
    let other = names(&["empty"]);
    let c = check(&mut db, &mut cd, &vec![], false, &other, 10_060);
    assert_eq!(c.invalid, vec![("all".to_string(), ListInvalidReasons::OnGlobalCooldown)]);
    let c = check(&mut db, &mut cd, &vec![], false, &other, 10_061);
    assert!(c.invalid.is_empty());
    // a role that skips the cooldown is not held back
    db.set_role_ignore_cooldown(1, 77, true).unwrap();
    let c = check(&mut db, &mut cd, &vec![77], false, &other, 10_010);
    assert!(c.invalid.is_empty());
}
