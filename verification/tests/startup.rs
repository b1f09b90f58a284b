use pingbot::database::Database;
use pingbot::startup::{add_guilds, import_guild, import_paths, schema_step, SchemaStep};

fn strings(xs: &[&str]) -> Vec<String> {
    xs.iter().map(|s| s.to_string()).collect()
}

#[test]
fn schema_versions() {
    assert_eq!(schema_step(0), SchemaStep::Create);
    assert_eq!(schema_step(1), SchemaStep::Upgrade);
    assert_eq!(schema_step(2), SchemaStep::Ready);
    assert_eq!(schema_step(3), SchemaStep::Unsupported);
    assert_eq!(schema_step(-1), SchemaStep::Unsupported);
}

#[test]
fn import_arguments() {
    assert_eq!(import_paths(&strings(&["bot", "--import", "a.pkl", "x", "--import", "b.pkl"])), strings(&["a.pkl", "b.pkl"]));
    assert_eq!(import_paths(&strings(&["bot", "--import", "--import", "c"])), strings(&["--import"]));
    assert!(import_paths(&strings(&["bot", "--import"])).is_empty());
    assert!(import_paths(&strings(&["bot"])).is_empty());
}

#[test]
fn import_file_names_give_the_guild() {
    assert_eq!(import_guild("data/123456.pickle"), Some(123456));
    assert_eq!(import_guild("/a/b.c/42.tar.gz"), Some(42));
    assert_eq!(import_guild("77"), Some(77));
    assert_eq!(import_guild("dir/guild.pkl"), None);
    assert_eq!(import_guild("dir/"), None);
}

#[test]
fn connecting_registers_the_guilds() {
    let mut db = Database::new();
    add_guilds(&mut db, &vec![5, 6, 5, u64::MAX]);
    let ids: Vec<u64> = db.guilds.iter().map(|g| g.id).collect();
    assert_eq!(ids, vec![5, 6]);
    assert_eq!(db.get_guild_ping_data(5), (0, true, 1800));
    assert!(db.well_formed());
}
