use pingbot::configure::{configure, configure_valid, CommandOption, Embed, OptionValue};
use pingbot::database::Database;
use pingbot::lists::create_reply;
use pingbot::structures::PERMISSION;

fn opt(name: &str, value: OptionValue) -> CommandOption {
    CommandOption { name: name.to_string(), value }
}

fn text(s: &str) -> OptionValue {
    OptionValue::String(s.to_string())
}

fn fields(e: &Embed) -> Vec<(&str, &str)> {
    e.fields.iter().map(|(a, b)| (a.as_str(), b.as_str())).collect()
}

fn store() -> Database {
    let mut db = Database::new();
    db.add_guild(1).unwrap();
    create_reply(&mut db, 1, "games", true);
    db
}

fn run(db: &mut Database, sub: &str, options: Option<Vec<CommandOption>>) -> Embed {
    assert!(configure_valid(db, 1, sub, &options));
    match configure(db, 1, true, sub, &options) {
        Ok(e) => e,
        Err(_) => panic!("refused"),
    }
}

#[test]
fn only_moderators_configure() {
    let mut db = store();
    let options = Some(vec![opt("allow_ping", OptionValue::Boolean(false))]);
    match configure(&mut db, 1, false, "guild", &options) {
        Err(r) => {
            assert_eq!(r.text, "You do not have permission to use this command.");
            assert!(r.ephemeral);
        },
        Ok(_) => panic!("a member configured the guild"),
    }
    assert_eq!(db.get_guild_ping_data(1), (0, true, 1800));
}

#[test]
fn show_reports_the_guild_settings() {
    let mut db = store();
    let e = run(&mut db, "show", None);
    assert_eq!(e.color, Some((0, 0, 0)));
    assert_eq!(e.description.as_deref(), Some("test"));
    assert_eq!(
        fields(&e),
        vec![
            ("Guild-wide", "allow pings true\nshared cooldown 0\nlist cooldown 1800"),
            ("proposal settings", "enable true\ntimeout 86400\nthreshold 8"),
        ]
    );
}

#[test]
fn guild_settings() {
    let mut db = store();
    let e = run(
        &mut db,
        "guild",
        Some(vec![
            opt("allow_ping", OptionValue::Boolean(false)),
            opt("set_guild_ping_cooldown", OptionValue::Integer(60)),
            opt("set_list_ping_cooldown", OptionValue::Integer(120)),
            opt("something_else", OptionValue::Integer(1)),
        ]),
    );
    assert_eq!(e.color, Some((255, 0, 0)));
    assert_eq!(e.description.as_deref(), Some("Configuring guild settings"));
    assert_eq!(
        fields(&e),
        vec![
            ("Can ping", "public can ping set to false"),
            ("Guild ping cooldown", "Guild-wide cooldown set to 60"),
            ("List ping cooldown", "List ping cooldown set to 120"),
        ]
    );
    assert_eq!(db.get_guild_ping_data(1), (60, false, 120));
    let e = run(&mut db, "show", None);
    assert_eq!(e.fields[0].1, "allow pings false\nshared cooldown 60\nlist cooldown 120");
}

#[test]
fn role_settings() {
    let mut db = store();
    let e = run(
        &mut db,
        "role",
        Some(vec![
            opt("role", OptionValue::Role(50)),
            opt("propose", text("ALLOW")),
            opt("ping", text("DENY")),
            opt("exclude_from_cooldown", OptionValue::Boolean(true)),
        ]),
    );
    assert!(e.color.is_none() && e.description.is_none());
    assert_eq!(
        fields(&e),
        vec![
            ("disable propose", "Proposal permission: Allow"),
            ("Ping permission: ", "Deny"),
            ("role cooldown", "true"),
        ]
    );
    assert_eq!(db.get_role_permissions(1, 50), (PERMISSION::ALLOW, PERMISSION::DENY, true));
    run(&mut db, "role", Some(vec![opt("role", OptionValue::Role(50)), opt("ping", text("0"))]));
    assert_eq!(db.get_role_permissions(1, 50), (PERMISSION::ALLOW, PERMISSION::NEUTRAL, true));
}

#[test]
fn user_settings() {
    let mut db = store();
    let e = run(
        &mut db,
        "user",
        Some(vec![opt("user", OptionValue::User(70)), opt("exclude_from_cooldown", OptionValue::Boolean(true))]),
    );
    assert_eq!(fields(&e), vec![("user cooldown", "true")]);
    assert_eq!(db.get_user_permissions(1, 70), (PERMISSION::NEUTRAL, PERMISSION::NEUTRAL, true));
}

#[test]
fn list_settings() {
    let mut db = store();
    let e = run(
        &mut db,
        "list",
        Some(vec![
            opt("list", text("games")),
            opt("description", text("play together")),
            opt("cooldown", OptionValue::Integer(30)),
            opt("allow_join", text("DENY")),
            opt("allow_ping", text("ALLOW")),
            opt("show", OptionValue::Boolean(false)),
        ]),
    );
    assert_eq!(
        fields(&e),
        vec![
            ("set description", "play together"),
            ("set cooldown", "30"),
            ("set joinable", "DENY"),
            ("allow ping", "ALLOW"),
            ("set visible", "false"),
        ]
    );
    assert_eq!(db.get_list_permissions(1), (30, PERMISSION::DENY, PERMISSION::ALLOW));
    assert_eq!(db.lists[0].description, "play together");
    assert!(!db.lists[0].visible);
    let e = run(&mut db, "list", Some(vec![opt("list", text("nothing")), opt("cooldown", OptionValue::Integer(5))]));
    assert_eq!(fields(&e), vec![("List not found", "The list with name nothing was not found.")]);
}

#[test]
fn channel_settings() {
    let mut db = store();
    let e = run(
        &mut db,
        "channel",
        Some(vec![
            opt("channel", OptionValue::Channel(100, Some("general".to_string()))),
            opt("mentioning", text("DENY")),
            opt("proposing", text("1")),
            opt("visible_commands", OptionValue::Boolean(true)),
        ]),
    );
    assert_eq!(
        fields(&e),
        vec![
            ("set mentioning", "Deny"),
            ("set proposing", "Deny"),
            ("set public commands visible", "true"),
        ]
    );
    assert_eq!(db.get_channel_permissions(1, 100), (true, PERMISSION::DENY, PERMISSION::DENY));
}

#[test]
fn proposal_settings() {
    let mut db = store();
    let e = run(
        &mut db,
        "proposals",
        Some(vec![
            opt("enabled", OptionValue::Boolean(false)),
            opt("timeout", OptionValue::Integer(100)),
            opt("threshold", OptionValue::Integer(3)),
        ]),
    );
    assert_eq!(
        fields(&e),
        vec![("enable proposals", "false"), ("proposal timeout", "100"), ("proposal threshold", "3")]
    );
    assert_eq!(db.get_propose_settings(1), (false, 100, 3));
}

#[test]
fn log_settings() {
    let mut db = store();
    let e = run(&mut db, "log", Some(vec![opt("set_channel", OptionValue::Channel(555, Some("logs".to_string())))]));
    assert_eq!(e.description.as_deref(), Some("Configuring logging settings"));
    assert_eq!(fields(&e), vec![("log channel", "log channel set to channel logs")]);
    assert_eq!(db.get_log_channel(1).unwrap(), Some(555));
    let e = run(&mut db, "log", Some(vec![opt("set_channel", OptionValue::Channel(556, None))]));
    assert_eq!(fields(&e), vec![("log channel", "log channel set to channel unnamed channel")]);
}

#[test]
fn options_the_command_does_not_define_are_refused_by_the_check() {
    let mut db = store();
    let bad = Some(vec![opt("allow_ping", OptionValue::Integer(3))]);
    assert!(!configure_valid(&mut db, 1, "guild", &bad));
    let bad = Some(vec![opt("role", OptionValue::Role(5)), opt("ping", text("sometimes"))]);
    assert!(!configure_valid(&mut db, 1, "role", &bad));
    let missing = Some(vec![opt("ping", text("ALLOW"))]);
    assert!(!configure_valid(&mut db, 1, "role", &missing));
}
