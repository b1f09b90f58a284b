use pingbot::database::Database;
use pingbot::pickle_import::{import_pickled, import_valid, PickleValue};
use pingbot::structures::{LOGCONDITION, LOGTRIGGER, PERMISSION};

fn s(x: &str) -> PickleValue {
    PickleValue::String(x.to_string())
}

fn ids(xs: &[i64]) -> PickleValue {
    PickleValue::SetOf(xs.iter().map(|x| PickleValue::I64(*x)).collect())
}

fn saved(entries: Vec<(PickleValue, PickleValue)>) -> PickleValue {
    PickleValue::Tuple(vec![PickleValue::Dict(entries), PickleValue::Dict(Vec::new())])
}

fn role_log(role: i64, channel: i64, message: &str, has: &[i64], not: &[i64]) -> (PickleValue, PickleValue) {
    (
        PickleValue::I64(role),
        PickleValue::Tuple(vec![
            PickleValue::I64(channel),
            s(message),
            PickleValue::Dict(vec![(s("hasRole"), ids(has)), (s("notHasRole"), ids(not))]),
        ]),
    )
}

#[test]
fn an_import_registers_the_guild() {
    let mut db = Database::new();
    let data = PickleValue::Other;
    assert!(import_valid(&db, 7, &data));
    import_pickled(&data, 7, &mut db);
    assert_eq!(db.guilds.len(), 1);
    assert_eq!(db.guilds[0].id, 7);
    import_pickled(&saved(Vec::new()), 7, &mut db);
    assert_eq!(db.guilds.len(), 1);
    assert!(db.well_formed());
}

#[test]
fn role_logs_become_responses_with_conditions() {
    let mut db = Database::new();
    let data = saved(vec![
        (s("roleLogAdd"), PickleValue::Dict(vec![role_log(50, 300, "hi {name}", &[60], &[61, 62])])),
        (s("roleLogRemove"), PickleValue::Dict(vec![role_log(51, 301, "bye", &[], &[])])),
    ]);
    assert!(import_valid(&db, 7, &data));
    import_pickled(&data, 7, &mut db);
    assert_eq!(db.has_response(7, LOGTRIGGER::RoleAdd(50)), Some(1));
    assert_eq!(db.has_response(7, LOGTRIGGER::RoleRemove(51)), Some(2));
    assert_eq!(db.get_response(7, 1).unwrap(), (300, "hi {name}".to_string()));
    assert_eq!(
        db.get_response_conditions(1),
        vec![
            (LOGCONDITION::HasRole(60), false, 1),
            (LOGCONDITION::HasRole(61), true, 2),
            (LOGCONDITION::HasRole(62), true, 3),
        ]
    );
    assert!(db.get_response_conditions(2).is_empty());
    assert!(db.well_formed());
}

#[test]
fn role_and_channel_sets() {
    let mut db = Database::new();
    let data = saved(vec![
        (s("fastping"), ids(&[70])),
        (s("restrictping"), ids(&[71])),
        (s("restrictproposal"), ids(&[72])),
        (
            s("channelRestrictions"),
            PickleValue::Dict(vec![
                (s("mentioning"), ids(&[400])),
                (s("membership"), ids(&[401])),
                (s("proposals"), ids(&[402])),
            ]),
        ),
        (s("pingdelay"), PickleValue::I64(5)),
        (PickleValue::I64(3), PickleValue::Other),
    ]);
    assert!(import_valid(&db, 7, &data));
    import_pickled(&data, 7, &mut db);
    assert_eq!(db.get_guild_ping_data(7), (0, false, 1800));
    assert_eq!(db.get_propose_settings(7).0, false);
    assert_eq!(db.get_role_permissions(7, 70), (PERMISSION::NEUTRAL, PERMISSION::NEUTRAL, true));
    assert_eq!(db.get_role_permissions(7, 71), (PERMISSION::NEUTRAL, PERMISSION::ALLOW, false));
    assert_eq!(db.get_role_permissions(7, 72), (PERMISSION::ALLOW, PERMISSION::NEUTRAL, false));
    assert_eq!(db.get_channel_permissions(7, 400), (false, PERMISSION::DENY, PERMISSION::NEUTRAL));
    assert_eq!(db.get_channel_permissions(7, 402), (false, PERMISSION::NEUTRAL, PERMISSION::DENY));
    assert_eq!(db.channel_settings.len(), 2);
    assert!(db.well_formed());
}

#[test]
fn malformed_data_is_refused_by_the_check() {
    let db = Database::new();
    assert!(!import_valid(&db, 7, &saved(vec![(s("fastping"), PickleValue::I64(1))])));
    assert!(!import_valid(&db, 7, &saved(vec![(s("fastping"), ids(&[-1]))])));
    assert!(!import_valid(&db, 7, &saved(vec![(s("roleLogAdd"), PickleValue::Dict(vec![(PickleValue::I64(1), s("x"))]))])));
    assert!(!import_valid(
        &db,
        7,
        &saved(vec![(s("channelRestrictions"), PickleValue::Dict(vec![(s("elsewhere"), ids(&[1]))]))])
    ));
    assert!(!import_valid(&db, u64::MAX, &PickleValue::Other));
    assert!(import_valid(&db, 7, &saved(vec![(s("unknown"), PickleValue::Other)])));
}
