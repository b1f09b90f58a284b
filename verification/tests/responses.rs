use pingbot::responses::{auto_response_valid, condition_valid};
use pingbot::configure::{CommandOption, OptionValue};
use pingbot::database::Database;
use pingbot::responses::{
    auto_response, auto_response_condition, check_triggers, list_auto_responses, member_join_responses,
    member_update_responses,
};
use pingbot::structures::LOGTRIGGER;

fn opt(name: &str, value: OptionValue) -> CommandOption {
    CommandOption { name: name.to_string(), value }
}

fn store() -> Database {
    let mut db = Database::new();
    db.add_guild(1).unwrap();
    db
}

fn add(db: &mut Database, sub: &str, role: Option<u64>, channel: u64, message: &str) -> String {
    let mut o = Vec::new();
    if let Some(r) = role {
        o.push(opt("role", OptionValue::Role(r)));
    }
    o.push(opt("channel", OptionValue::Channel(channel, None)));
    o.push(opt("message", OptionValue::String(message.to_string())));
    auto_response(db, 1, true, "add_auto_response", sub, &Some(o)).text
}

fn condition(db: &mut Database, command: &str, role: u64, required: u64, invert: bool) -> String {
    let o = vec![
        opt("role", OptionValue::Role(role)),
        opt("required_role", OptionValue::Role(required)),
        opt("invert", OptionValue::Boolean(invert)),
    ];
    auto_response_condition(db, 1, true, command, "role_add", &Some(o)).text
}

#[test]
fn adding_and_removing_responses() {
    let mut db = store();
    assert_eq!(add(&mut db, "role_add", Some(50), 300, "Welcome {name}!"), "Added automatic response.");
    assert_eq!(
        add(&mut db, "role_add", Some(50), 301, "again"),
        "Automatic response with that trigger already present."
    );
    assert_eq!(db.has_response(1, LOGTRIGGER::RoleAdd(50)), Some(1));
    assert_eq!(db.get_response(1, 1).unwrap(), (300, "Welcome {name}!".to_string()));
    let o = Some(vec![opt("role", OptionValue::Role(50))]);
    let r = auto_response(&mut db, 1, true, "remove_auto_response", "role_add", &o);
    assert_eq!(r.text, "Removed automatic response.");
    assert!(!r.ephemeral);
    let r = auto_response(&mut db, 1, true, "remove_auto_response", "role_add", &o);
    assert_eq!(r.text, "Could not find automatic response.");
    assert_eq!(db.has_response(1, LOGTRIGGER::RoleAdd(50)), None);
}

#[test]
fn response_commands_are_for_moderators() {
    let mut db = store();
    let o = Some(vec![opt("channel", OptionValue::Channel(3, None))]);
    let r = auto_response(&mut db, 1, false, "add_auto_response", "join_server", &o);
    assert_eq!(r.text, "You do not have permission to use this command.");
    assert!(r.ephemeral);
    let r = auto_response(&mut db, 1, true, "add_auto_response", "join_server", &None);
    assert_eq!(r.text, "Invalid usage of command");
    let r = auto_response_condition(&mut db, 1, false, "add_auto_response_condition", "join_server", &None);
    assert_eq!(r.text, "You do not have permission to use this command.");
    assert!(db.responses.is_empty());
}

#[test]
fn role_changes_set_off_responses() {
    let mut db = store();
    add(&mut db, "role_add", Some(50), 300, "<@{userID}> got the role, {name}");
    add(&mut db, "role_remove", Some(51), 301, "{name} lost it");
    let out = member_update_responses(&mut db, 1, &vec![51, 7], &vec![7, 50], 99, "Ann");
    assert_eq!(
        out,
        vec![(301, "Ann lost it".to_string()), (300, "<@99> got the role, Ann".to_string())]
    );
    // no change, no message
    assert!(member_update_responses(&mut db, 1, &vec![50], &vec![50], 99, "Ann").is_empty());
}

#[test]
fn joining_the_server() {
    let mut db = store();
    assert!(member_join_responses(&mut db, 1, &vec![], 5, "Bo").is_empty());
    add(&mut db, "join_server", None, 302, "Hello {name} ({userID})");
    assert_eq!(member_join_responses(&mut db, 1, &vec![], 5, "Bo"), vec![(302, "Hello Bo (5)".to_string())]);
}

#[test]
fn conditions_gate_responses() {
    let mut db = store();
    add(&mut db, "role_add", Some(50), 300, "msg");
    assert_eq!(condition(&mut db, "add_auto_response_condition", 50, 60, false), "Succesfully added condition.");
    assert_eq!(condition(&mut db, "add_auto_response_condition", 50, 61, true), "Succesfully added condition.");
    let t = vec![LOGTRIGGER::RoleAdd(50)];
    assert_eq!(check_triggers(&mut db, 1, &vec![50, 60], &t), vec![(300, "msg".to_string())]);
    assert!(check_triggers(&mut db, 1, &vec![50], &t).is_empty());
    assert!(check_triggers(&mut db, 1, &vec![50, 60, 61], &t).is_empty());
    assert_eq!(condition(&mut db, "remove_auto_response_condition", 50, 61, false), "Condition not found");
    assert_eq!(condition(&mut db, "remove_auto_response_condition", 50, 61, true), "Succesfully removed condition");
    assert_eq!(check_triggers(&mut db, 1, &vec![50, 60, 61], &t), vec![(300, "msg".to_string())]);
    assert_eq!(condition(&mut db, "add_auto_response_condition", 52, 60, false), "No such auto response exists.");
}

#[test]
fn listing_responses() {
    let mut db = store();
    add(&mut db, "role_add", Some(50), 300, "first");
    add(&mut db, "join_server", None, 301, "second");
    let fields = list_auto_responses(&db, 1, true).ok().unwrap();
    assert_eq!(
        fields,
        vec![
            ("RoleAdd(50)".to_string(), "Message to channel with id 300 as follows:\nfirst".to_string()),
            ("JoinServer()".to_string(), "Message to channel with id 301 as follows:\nsecond".to_string()),
        ]
    );
    match list_auto_responses(&db, 1, false) {
        Err(r) => assert_eq!(r.text, "You do not have permission to use this command."),
        Ok(_) => panic!("a member listed the responses"),
    }
}

#[test]
fn checks_before_the_response_commands() {
    let mut db = store();
    let no_channel = vec![opt("role", OptionValue::Role(50))];
    assert!(!auto_response_valid(&mut db, 1, "add_auto_response", "role_add", &no_channel));
    assert!(auto_response_valid(&mut db, 1, "remove_auto_response", "role_add", &no_channel));
    assert!(!auto_response_valid(&mut db, 1, "other_command", "role_add", &no_channel));
    assert!(!auto_response_valid(&mut db, 1, "add_auto_response", "role_add", &vec![]));
    let full = vec![opt("role", OptionValue::Role(50)), opt("channel", OptionValue::Channel(3, None))];
    assert!(auto_response_valid(&mut db, 1, "add_auto_response", "role_add", &full));
    assert!(!auto_response_valid(&mut db, 2, "add_auto_response", "role_add", &full));
    add(&mut db, "role_add", Some(50), 300, "m");
    condition(&mut db, "add_auto_response_condition", 50, 60, false);
    assert!(!auto_response_valid(&mut db, 1, "remove_auto_response", "role_add", &no_channel));
    let c = vec![opt("role", OptionValue::Role(50)), opt("required_role", OptionValue::Role(60))];
    assert!(condition_valid(&mut db, 1, "remove_auto_response_condition", "role_add", &c));
    assert!(!condition_valid(&mut db, 1, "something", "role_add", &c));
    assert!(!condition_valid(&mut db, 1, "add_auto_response_condition", "role_add", &no_channel));
    let other = vec![opt("role", OptionValue::Role(51)), opt("required_role", OptionValue::Role(60))];
    assert!(condition_valid(&mut db, 1, "something", "role_add", &other));
}
