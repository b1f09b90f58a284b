use std::collections::{BTreeMap, BTreeSet};

use pingbot::database::Database;
use pingbot::pickle_import::import_pickle_bytes;
use pingbot::structures::{LOGTRIGGER, PERMISSION};
use serde_pickle::value::{HashableValue, Value};

fn key(x: &str) -> HashableValue {
    HashableValue::String(x.to_string())
}

fn role_set(xs: &[i64]) -> Value {
    Value::Set(xs.iter().map(|x| HashableValue::I64(*x)).collect::<BTreeSet<_>>())
}

fn pickled(entries: Vec<(HashableValue, Value)>) -> Vec<u8> {
    let data: BTreeMap<HashableValue, Value> = entries.into_iter().collect();
    let saved = Value::Tuple(vec![Value::Dict(data), Value::Dict(BTreeMap::new())]);
    serde_pickle::value_to_vec(&saved, serde_pickle::SerOptions::new()).unwrap()
}

#[test]
fn saved_bytes_are_decoded_and_imported() {
    let mut logs = BTreeMap::new();
    let restrictions: BTreeMap<HashableValue, Value> = vec![(key("hasRole"), role_set(&[3]))].into_iter().collect();
    logs.insert(
        HashableValue::I64(50),
        Value::Tuple(vec![Value::I64(300), Value::String("hi".to_string()), Value::Dict(restrictions)]),
    );
    let bytes = pickled(vec![
        (key("fastping"), role_set(&[70, 71])),
        (key("restrictping"), role_set(&[72])),
        (key("roleLogAdd"), Value::Dict(logs)),
    ]);
    let mut db = Database::new();
    assert!(import_pickle_bytes(&bytes, 7, &mut db));
    assert_eq!(db.guilds.len(), 1);
    assert_eq!(db.get_role_permissions(7, 70), (PERMISSION::NEUTRAL, PERMISSION::NEUTRAL, true));
    assert_eq!(db.get_role_permissions(7, 71), (PERMISSION::NEUTRAL, PERMISSION::NEUTRAL, true));
    assert_eq!(db.get_role_permissions(7, 72), (PERMISSION::NEUTRAL, PERMISSION::ALLOW, false));
    assert_eq!(db.get_guild_ping_data(7).1, false);
    assert_eq!(db.has_response(7, LOGTRIGGER::RoleAdd(50)), Some(1));
    assert_eq!(db.get_response_conditions(1).len(), 1);
    assert!(db.well_formed());
}

#[test]
fn bytes_that_are_not_a_pickle_change_nothing() {
    let mut db = Database::new();
    assert!(!import_pickle_bytes(b"not a pickle", 7, &mut db));
    assert!(db.guilds.is_empty());
}

#[test]
fn unreadable_data_changes_nothing() {
    let bytes = pickled(vec![(key("fastping"), Value::I64(1))]);
    let mut db = Database::new();
    assert!(!import_pickle_bytes(&bytes, 7, &mut db));
    assert!(db.guilds.is_empty());
}
