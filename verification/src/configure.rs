use vstd::prelude::*;
use vstd::string::*;

use crate::database::{Database, DbView, GuildField, guild_of, has_guild_row, sql_int, update_guilds};
use crate::db_settings::{
    key_present, ChannelField, SettingField, ensure_channel, ensure_setting, setting_insertable, setting_present,
    update_channels, update_settings,
};
use crate::db_lists::{ListField, describe_lists, list_named, lemma_list_named_some, update_lists};
use crate::database::has_list_row;
use crate::database::SettingRow;
use crate::structures::{PERMISSION, Reply, perm_of_str, perm_str_valid, perm_text};
use crate::membership::{not_allowed, not_allowed_text};
use crate::text::{bool_text, dec, dec_i, push_bool, push_dec, push_dec_i64, str_eq};

verus! {

// ---------------------------------------------------------------------------
// Command options as plain values
// ---------------------------------------------------------------------------

/// The value of a command option. A channel carries its resolved name, when
/// it has one.
pub enum OptionValue {
    Boolean(bool),
    Integer(i64),
    String(String),
    Role(u64),
    User(u64),
    Channel(u64, Option<String>),
    Other,
}

pub enum ValueV {
    Boolean(bool),
    Integer(i64),
    String(Seq<char>),
    Role(u64),
    User(u64),
    Channel(u64, Option<Seq<char>>),
    Other,
}

impl View for OptionValue {
    type V = ValueV;

    open spec fn view(&self) -> ValueV {
        match self {
            OptionValue::Boolean(b) => ValueV::Boolean(*b),
            OptionValue::Integer(i) => ValueV::Integer(*i),
            OptionValue::String(s) => ValueV::String(s@),
            OptionValue::Role(r) => ValueV::Role(*r),
            OptionValue::User(u) => ValueV::User(*u),
            OptionValue::Channel(c, n) => ValueV::Channel(*c, match n {
                Some(s) => Some(s@),
                None => None,
            }),
            OptionValue::Other => ValueV::Other,
        }
    }
}

/// A named option of a subcommand.
pub struct CommandOption {
    pub name: String,
    pub value: OptionValue,
}

pub struct OptionV {
    pub name: Seq<char>,
    pub value: ValueV,
}

impl View for CommandOption {
    type V = OptionV;

    open spec fn view(&self) -> OptionV {
        OptionV { name: self.name@, value: self.value@ }
    }
}

pub open spec fn options_view(v: Seq<CommandOption>) -> Seq<OptionV> {
    v.map_values(|o: CommandOption| o@)
}

/// The first option with the name.
pub open spec fn find_option(opts: Seq<OptionV>, name: Seq<char>) -> Option<OptionV>
    decreases opts.len(),
{
    if opts.len() == 0 {
        None
    } else if opts[0].name == name {
        Some(opts[0])
    } else {
        find_option(opts.drop_first(), name)
    }
}

fn find_option_exec<'a>(opts: &'a Vec<CommandOption>, name: &str) -> (res: Option<&'a CommandOption>)
    ensures
        match res {
            Some(o) => find_option(options_view(opts@), name@) == Some(o@),
            None => find_option(options_view(opts@), name@) is None,
        },
{
    let ghost all = options_view(opts@);
    assert(all.skip(0) =~= all);
    let mut i: usize = 0;
    while i < opts.len()
        invariant
            i <= opts.len(),
            all == options_view(opts@),
            find_option(all, name@) == find_option(all.skip(i as int), name@),
        decreases opts.len() - i,
    {
        let ghost rest = all.skip(i as int);
        assert(rest[0] == opts@[i as int]@);
        assert(rest.drop_first() =~= all.skip(i + 1));
        if str_eq(opts[i].name.as_str(), name) {
            return Some(&opts[i]);
        }
        i += 1;
    }
    assert(all.skip(i as int) =~= Seq::<OptionV>::empty());
    None
}

// ---------------------------------------------------------------------------
// The answer: an embed
// ---------------------------------------------------------------------------

/// An embed: colour, description and (title, text) fields.
pub struct Embed {
    pub color: Option<(u8, u8, u8)>,
    pub description: Option<String>,
    pub fields: Vec<(String, String)>,
}

pub struct EmbedV {
    pub color: Option<(u8, u8, u8)>,
    pub description: Option<Seq<char>>,
    pub fields: Seq<(Seq<char>, Seq<char>)>,
}

pub open spec fn fields_view(v: Seq<(String, String)>) -> Seq<(Seq<char>, Seq<char>)> {
    v.map_values(|f: (String, String)| (f.0@, f.1@))
}

impl View for Embed {
    type V = EmbedV;

    open spec fn view(&self) -> EmbedV {
        EmbedV {
            color: self.color,
            description: match self.description {
                Some(d) => Some(d@),
                None => None,
            },
            fields: fields_view(self.fields@),
        }
    }
}

fn push_field(fields: &mut Vec<(String, String)>, name: &str, text: String)
    ensures
        fields_view(final(fields)@) == fields_view(old(fields)@).push((name@, text@)),
{
    let ghost before = fields@;
    fields.push((String::from_str(name), text));
    assert(fields_view(fields@) =~= fields_view(before).push((name@, text@)));
}

/// What one option does: the store after it, and the fields it adds.
pub type Step = spec_fn(DbView, OptionV) -> (DbView, Seq<(Seq<char>, Seq<char>)>);

/// The options applied in order.
pub open spec fn run_options(v: DbView, opts: Seq<OptionV>, step: Step) -> (DbView, Seq<(Seq<char>, Seq<char>)>)
    decreases opts.len(),
{
    if opts.len() == 0 {
        (v, Seq::empty())
    } else {
        let r = run_options(v, opts.drop_last(), step);
        let s = step(r.0, opts.last());
        (s.0, r.1 + s.1)
    }
}

pub proof fn lemma_run_options_step(v: DbView, opts: Seq<OptionV>, step: Step, i: int)
    requires
        0 <= i < opts.len(),
    ensures
        run_options(v, opts.take(i + 1), step) == ({
            let r = run_options(v, opts.take(i), step);
            let s = step(r.0, opts[i]);
            (s.0, r.1 + s.1)
        }),
{
    assert(opts.take(i + 1).drop_last() =~= opts.take(i));
    assert(opts.take(i + 1).last() == opts[i]);
}

// ---------------------------------------------------------------------------
// `/configure show`
// ---------------------------------------------------------------------------

pub open spec fn show_embed(v: DbView, guild_id: u64) -> EmbedV {
    let g = guild_of(v.guilds, guild_id);
    EmbedV {
        color: Some((0, 0, 0)),
        description: Some("test"@),
        fields: seq![
            ("Guild-wide"@, "allow pings "@ + bool_text(g.general_canping) + "\nshared cooldown "@
                + dec(g.general_cooldown as nat) + "\nlist cooldown "@ + dec(g.pingcooldown as nat)),
            ("proposal settings"@, "enable "@ + bool_text(g.general_propose) + "\ntimeout "@
                + dec(g.propose_timeout as nat) + "\nthreshold "@ + dec((g.propose_threshold as usize) as nat)),
        ],
    }
}

fn configure_show(db: &Database, guild_id: u64) -> (res: Embed)
    requires
        db@.wf(),
        has_guild_row(db@.guilds, guild_id),
    ensures
        res@ == show_embed(db@, guild_id),
{
    let (a, b, c) = db.get_guild_ping_data(guild_id);
    let (d, e, f) = db.get_propose_settings(guild_id);
    let mut fields: Vec<(String, String)> = Vec::new();
    let mut t1 = String::from_str("allow pings ");
    push_bool(&mut t1, b);
    t1.append("\nshared cooldown ");
    push_dec(&mut t1, a as u128);
    t1.append("\nlist cooldown ");
    push_dec(&mut t1, c as u128);
    push_field(&mut fields, "Guild-wide", t1);
    let mut t2 = String::from_str("enable ");
    push_bool(&mut t2, d);
    t2.append("\ntimeout ");
    push_dec(&mut t2, e as u128);
    t2.append("\nthreshold ");
    push_dec(&mut t2, f as u128);
    push_field(&mut fields, "proposal settings", t2);
    let res = Embed { color: Some((0, 0, 0)), description: Some(String::from_str("test")), fields };
    assert(res@.fields =~= show_embed(db@, guild_id).fields);
    res
}

// ---------------------------------------------------------------------------
// `/configure guild`
// ---------------------------------------------------------------------------

pub open spec fn guild_step(v: DbView, guild_id: u64, o: OptionV) -> (DbView, Seq<(Seq<char>, Seq<char>)>) {
    if o.name == "allow_ping"@ {
        match o.value {
            ValueV::Boolean(b) => (
                v.with_guilds(update_guilds(v.guilds, guild_id, GuildField::CanPing(b))),
                seq![("Can ping"@, "public can ping set to "@ + bool_text(b))],
            ),
            _ => (v, Seq::empty()),
        }
    } else if o.name == "set_guild_ping_cooldown"@ {
        match o.value {
            ValueV::Integer(b) => (
                v.with_guilds(update_guilds(v.guilds, guild_id, GuildField::GeneralCooldown(b as u64))),
                seq![("Guild ping cooldown"@, "Guild-wide cooldown set to "@ + dec_i(b as int))],
            ),
            _ => (v, Seq::empty()),
        }
    } else if o.name == "set_list_ping_cooldown"@ {
        match o.value {
            ValueV::Integer(b) => (
                v.with_guilds(update_guilds(v.guilds, guild_id, GuildField::PingCooldown(b as u64))),
                seq![("List ping cooldown"@, "List ping cooldown set to "@ + dec_i(b as int))],
            ),
            _ => (v, Seq::empty()),
        }
    } else {
        (v, Seq::empty())
    }
}

/// The option has the type its name calls for, and a cooldown is not
/// negative.
pub open spec fn guild_option_ok(o: OptionV) -> bool {
    &&& o.name == "allow_ping"@ ==> o.value is Boolean
    &&& (o.name == "set_guild_ping_cooldown"@ || o.name == "set_list_ping_cooldown"@)
        ==> (o.value matches ValueV::Integer(b) && b >= 0)
}

pub open spec fn guild_stepper(guild_id: u64) -> Step {
    |v: DbView, o: OptionV| guild_step(v, guild_id, o)
}

fn configure_guild(db: &mut Database, guild_id: u64, options: &Vec<CommandOption>) -> (res: Embed)
    requires
        old(db)@.wf(),
        sql_int(guild_id),
        forall|i: int| 0 <= i < options.len() ==> guild_option_ok(#[trigger] options@[i]@),
    ensures
        final(db)@.wf(),
        ({
            let r = run_options(old(db)@, options_view(options@), guild_stepper(guild_id));
            &&& final(db)@ == r.0
            &&& res@ == EmbedV {
                color: Some((255, 0, 0)),
                description: Some("Configuring guild settings"@),
                fields: r.1,
            }
        }),
{
    let ghost v0 = db@;
    let ghost opts = options_view(options@);
    let ghost step = guild_stepper(guild_id);
    let mut fields: Vec<(String, String)> = Vec::new();
    let mut i: usize = 0;
    while i < options.len()
        invariant
            i <= options.len(),
            db@.wf(),
            sql_int(guild_id),
            opts == options_view(options@),
            step == guild_stepper(guild_id),
            forall|k: int| 0 <= k < options.len() ==> guild_option_ok(#[trigger] options@[k]@),
            run_options(v0, opts.take(i as int), step) == (db@, fields_view(fields@)),
        decreases options.len() - i,
    {
        proof {
            lemma_run_options_step(v0, opts, step, i as int);
            assert(opts[i as int] == options@[i as int]@);
            assert(guild_option_ok(options@[i as int]@));
        }
        let o = &options[i];
        let ghost f0 = fields_view(fields@);
        if str_eq(o.name.as_str(), "allow_ping") {
            if let OptionValue::Boolean(b) = o.value {
                let _ = db.set_guild_canping(guild_id, b);
                let mut t = String::from_str("public can ping set to ");
                push_bool(&mut t, b);
                push_field(&mut fields, "Can ping", t);
            }
        } else if str_eq(o.name.as_str(), "set_guild_ping_cooldown") {
            if let OptionValue::Integer(b) = o.value {
                let _ = db.set_guild_general_cooldown(guild_id, b as u64);
                let mut t = String::from_str("Guild-wide cooldown set to ");
                push_dec_i64(&mut t, b);
                push_field(&mut fields, "Guild ping cooldown", t);
            }
        } else if str_eq(o.name.as_str(), "set_list_ping_cooldown") {
            if let OptionValue::Integer(b) = o.value {
                let _ = db.set_guild_ping_cooldown(guild_id, b as u64);
                let mut t = String::from_str("List ping cooldown set to ");
                push_dec_i64(&mut t, b);
                push_field(&mut fields, "List ping cooldown", t);
            }
        }
        proof {
            assert(fields_view(fields@) =~= f0 + step(run_options(v0, opts.take(i as int), step).0, opts[i as int]).1);
        }
        i += 1;
    }
    proof {
        assert(opts.take(options.len() as int) =~= opts);
    }
    Embed {
        color: Some((255, 0, 0)),
        description: Some(String::from_str("Configuring guild settings")),
        fields,
    }
}


// ---------------------------------------------------------------------------
// `/configure role` and `/configure user`
// ---------------------------------------------------------------------------

/// The settings column an option writes, with the permission its string
/// names.
pub open spec fn setting_option(o: OptionV) -> Option<SettingField> {
    if o.name == "propose"@ && o.value is String {
        Some(SettingField::Propose(perm_of_str(o.value->String_0)))
    } else if o.name == "ping"@ && o.value is String {
        Some(SettingField::Ping(perm_of_str(o.value->String_0)))
    } else if o.name == "exclude_from_cooldown"@ && o.value is Boolean {
        Some(SettingField::IgnoreCooldown(o.value->Boolean_0))
    } else {
        None
    }
}

/// The field an applied setting adds; `cooldown_title` names the cooldown
/// one.
pub open spec fn setting_fields(o: OptionV, cooldown_title: Seq<char>) -> Seq<(Seq<char>, Seq<char>)> {
    match setting_option(o) {
        Some(SettingField::Propose(p)) => seq![("disable propose"@, "Proposal permission: "@ + perm_text(p))],
        Some(SettingField::Ping(p)) => seq![("Ping permission: "@, perm_text(p))],
        Some(SettingField::IgnoreCooldown(b)) => seq![(cooldown_title, bool_text(b))],
        None => Seq::empty(),
    }
}

pub open spec fn apply_setting(rows: Seq<SettingRow>, guild_id: u64, key: u64, o: OptionV) -> Seq<SettingRow> {
    match setting_option(o) {
        Some(f) => update_settings(ensure_setting(rows, guild_id, key), guild_id, key, f),
        None => rows,
    }
}

pub open spec fn role_stepper(guild_id: u64, role_id: u64) -> Step {
    |v: DbView, o: OptionV| (v.with_roles(apply_setting(v.roles, guild_id, role_id, o)), setting_fields(o, "role cooldown"@))
}

pub open spec fn user_stepper(guild_id: u64, user_id: u64) -> Step {
    |v: DbView, o: OptionV| (v.with_users(apply_setting(v.users, guild_id, user_id, o)), setting_fields(o, "user cooldown"@))
}

/// A permission option holds a string that `PERMISSION::from_str` accepts,
/// and the cooldown option a boolean.
pub open spec fn subject_option_ok(o: OptionV) -> bool {
    &&& (o.name == "propose"@ || o.name == "ping"@) ==> (o.value matches ValueV::String(s) && perm_str_valid(s))
    &&& o.name == "exclude_from_cooldown"@ ==> o.value is Boolean
}

pub open spec fn has_setting_option(opts: Seq<OptionV>) -> bool {
    exists|k: int| 0 <= k < opts.len() && (#[trigger] setting_option(opts[k])) is Some
}

/// The id the subcommand names under `key_name`, when its option holds a
/// role (`role`) or a user.
pub open spec fn subject_id(opts: Seq<OptionV>, key_name: Seq<char>) -> Option<u64> {
    match find_option(opts, key_name) {
        Some(o) => match o.value {
            ValueV::Role(r) => if key_name == "role"@ { Some(r) } else { None },
            ValueV::User(u) => if key_name == "user"@ { Some(u) } else { None },
            _ => None,
        },
        None => None,
    }
}

/// The role or user subcommand can run: it names its subject, every option
/// is well typed, and a row for the subject can be made if one is written.
pub open spec fn subject_ok(v: DbView, rows: Seq<SettingRow>, guild_id: u64, opts: Seq<OptionV>, key_name: Seq<char>) -> bool {
    &&& subject_id(opts, key_name) is Some
    &&& sql_int(subject_id(opts, key_name)->Some_0)
    &&& forall|k: int| 0 <= k < opts.len() ==> subject_option_ok(#[trigger] opts[k])
    &&& has_setting_option(opts) ==> setting_insertable(v, rows, guild_id, subject_id(opts, key_name)->Some_0)
}

proof fn lemma_setting_kept(rows: Seq<SettingRow>, guild_id: u64, key: u64, f: SettingField)
    ensures
        setting_present(update_settings(ensure_setting(rows, guild_id, key), guild_id, key, f), key),
{
    let e = ensure_setting(rows, guild_id, key);
    let u = update_settings(e, guild_id, key, f);
    if setting_present(rows, key) {
        let j = choose|j: int| 0 <= j < rows.len() && (#[trigger] rows[j]).subject_id == key;
        assert(u[j].subject_id == key);
    } else {
        assert(u[rows.len() as int].subject_id == key);
    }
}

fn option_perm(o: &CommandOption) -> (res: PERMISSION)
    requires
        o@.value matches ValueV::String(s) && perm_str_valid(s),
    ensures
        res == perm_of_str(o@.value->String_0),
{
    match &o.value {
        OptionValue::String(s) => match PERMISSION::from_str(s.as_str()) {
            Ok(p) => p,
            Err(_) => PERMISSION::NEUTRAL,
        },
        _ => PERMISSION::NEUTRAL,
    }
}

proof fn lemma_setting_names_distinct()
    ensures
        "propose"@ != "ping"@,
        "propose"@ != "exclude_from_cooldown"@,
        "ping"@ != "exclude_from_cooldown"@,
{
    reveal_strlit("propose");
    reveal_strlit("ping");
    reveal_strlit("exclude_from_cooldown");
    assert("propose"@.len() == 7);
    assert("ping"@.len() == 4);
    assert("exclude_from_cooldown"@.len() == 21);
}

fn push_setting_field(fields: &mut Vec<(String, String)>, o: &CommandOption, perm: PERMISSION, cooldown_title: &str)
    requires
        setting_option(o@) is Some,
        setting_option(o@) matches Some(SettingField::Propose(p)) ==> p == perm,
        setting_option(o@) matches Some(SettingField::Ping(p)) ==> p == perm,
    ensures
        fields_view(final(fields)@) == fields_view(old(fields)@) + setting_fields(o@, cooldown_title@),
{
    let ghost before = fields_view(fields@);
    proof {
        lemma_setting_names_distinct();
    }
    if str_eq(o.name.as_str(), "propose") {
        let mut t = String::from_str("Proposal permission: ");
        t.append(perm.to_text());
        assert(setting_fields(o@, cooldown_title@) == seq![("disable propose"@, "Proposal permission: "@ + perm_text(perm))]);
        push_field(fields, "disable propose", t);
        assert(fields_view(fields@) =~= before + setting_fields(o@, cooldown_title@));
    } else if str_eq(o.name.as_str(), "ping") {
        let mut t = String::new();
        t.append(perm.to_text());
        assert(t@ =~= perm_text(perm));
        assert(setting_fields(o@, cooldown_title@) == seq![("Ping permission: "@, perm_text(perm))]);
        push_field(fields, "Ping permission: ", t);
        assert(fields_view(fields@) =~= before + setting_fields(o@, cooldown_title@));
    } else if let OptionValue::Boolean(b) = o.value {
        let mut t = String::new();
        push_bool(&mut t, b);
        assert(t@ =~= bool_text(b));
        assert(setting_fields(o@, cooldown_title@) == seq![(cooldown_title@, bool_text(b))]);
        push_field(fields, cooldown_title, t);
        assert(fields_view(fields@) =~= before + setting_fields(o@, cooldown_title@));
    }
    proof {
        assert(fields_view(fields@) =~= before + setting_fields(o@, cooldown_title@));
    }
}

fn subject_of(options: &Vec<CommandOption>, key_name: &str) -> (res: u64)
    requires
        subject_id(options_view(options@), key_name@) is Some,
    ensures
        res == subject_id(options_view(options@), key_name@)->Some_0,
{
    match find_option_exec(options, key_name) {
        Some(o) => match o.value {
            OptionValue::Role(r) => r,
            OptionValue::User(u) => u,
            _ => 0,
        },
        None => 0,
    }
}

fn configure_role(db: &mut Database, guild_id: u64, options: &Vec<CommandOption>) -> (res: Embed)
    requires
        old(db)@.wf(),
        sql_int(guild_id),
        subject_ok(old(db)@, old(db)@.roles, guild_id, options_view(options@), "role"@),
    ensures
        final(db)@.wf(),
        ({
            let r = run_options(old(db)@, options_view(options@),
                role_stepper(guild_id, subject_id(options_view(options@), "role"@)->Some_0));
            &&& final(db)@ == r.0
            &&& res@ == EmbedV { color: None, description: None, fields: r.1 }
        }),
{
    let ghost v0 = db@;
    let ghost opts = options_view(options@);
    let role = subject_of(options, "role");
    let ghost step = role_stepper(guild_id, role);
    let ghost ins0 = setting_insertable(v0, v0.roles, guild_id, role);
    let mut fields: Vec<(String, String)> = Vec::new();
    let mut i: usize = 0;
    while i < options.len()
        invariant
            i <= options.len(),
            db@.wf(),
            sql_int(guild_id),
            sql_int(role),
            opts == options_view(options@),
            step == role_stepper(guild_id, role),
            forall|k: int| 0 <= k < opts.len() ==> subject_option_ok(#[trigger] opts[k]),
            has_setting_option(opts) ==> ins0,
            ins0 ==> setting_insertable(db@, db@.roles, guild_id, role),
            run_options(v0, opts.take(i as int), step) == (db@, fields_view(fields@)),
        decreases options.len() - i,
    {
        proof {
            lemma_run_options_step(v0, opts, step, i as int);
            assert(opts[i as int] == options@[i as int]@);
            assert(subject_option_ok(opts[i as int]));
        }
        let o = &options[i];
        let ghost before = db@;
        if str_eq(o.name.as_str(), "propose") || str_eq(o.name.as_str(), "ping") {
            if let OptionValue::String(_) = o.value {
                proof {
                    assert(setting_option(opts[i as int]) is Some);
                }
                let perm = option_perm(o);
                if str_eq(o.name.as_str(), "propose") {
                    let _ = db.set_role_canpropose(guild_id, role, perm);
                } else {
                    let _ = db.set_role_canping(guild_id, role, perm);
                }
                push_setting_field(&mut fields, o, perm, "role cooldown");
            }
        } else if str_eq(o.name.as_str(), "exclude_from_cooldown") {
            if let OptionValue::Boolean(b) = o.value {
                proof {
                    assert(setting_option(opts[i as int]) is Some);
                }
                let _ = db.set_role_ignore_cooldown(guild_id, role, b);
                push_setting_field(&mut fields, o, PERMISSION::NEUTRAL, "role cooldown");
            }
        }
        proof {
            if setting_option(opts[i as int]) is Some {
                lemma_setting_kept(before.roles, guild_id, role, setting_option(opts[i as int])->Some_0);
            } else {
                assert(fields_view(fields@) =~= fields_view(fields@) + Seq::<(Seq<char>, Seq<char>)>::empty());
                assert(before.with_roles(before.roles) == before);
            }
        }
        i += 1;
    }
    proof {
        assert(opts.take(options.len() as int) =~= opts);
    }
    Embed { color: None, description: None, fields }
}

fn configure_user(db: &mut Database, guild_id: u64, options: &Vec<CommandOption>) -> (res: Embed)
    requires
        old(db)@.wf(),
        sql_int(guild_id),
        subject_ok(old(db)@, old(db)@.users, guild_id, options_view(options@), "user"@),
    ensures
        final(db)@.wf(),
        ({
            let r = run_options(old(db)@, options_view(options@),
                user_stepper(guild_id, subject_id(options_view(options@), "user"@)->Some_0));
            &&& final(db)@ == r.0
            &&& res@ == EmbedV { color: None, description: None, fields: r.1 }
        }),
{
    let ghost v0 = db@;
    let ghost opts = options_view(options@);
    let user = subject_of(options, "user");
    let ghost step = user_stepper(guild_id, user);
    let ghost ins0 = setting_insertable(v0, v0.users, guild_id, user);
    let mut fields: Vec<(String, String)> = Vec::new();
    let mut i: usize = 0;
    while i < options.len()
        invariant
            i <= options.len(),
            db@.wf(),
            sql_int(guild_id),
            sql_int(user),
            opts == options_view(options@),
            step == user_stepper(guild_id, user),
            forall|k: int| 0 <= k < opts.len() ==> subject_option_ok(#[trigger] opts[k]),
            has_setting_option(opts) ==> ins0,
            ins0 ==> setting_insertable(db@, db@.users, guild_id, user),
            run_options(v0, opts.take(i as int), step) == (db@, fields_view(fields@)),
        decreases options.len() - i,
    {
        proof {
            lemma_run_options_step(v0, opts, step, i as int);
            assert(opts[i as int] == options@[i as int]@);
            assert(subject_option_ok(opts[i as int]));
        }
        let o = &options[i];
        let ghost before = db@;
        if str_eq(o.name.as_str(), "propose") || str_eq(o.name.as_str(), "ping") {
            if let OptionValue::String(_) = o.value {
                proof {
                    assert(setting_option(opts[i as int]) is Some);
                }
                let perm = option_perm(o);
                if str_eq(o.name.as_str(), "propose") {
                    db.set_user_propose(guild_id, user, perm);
                } else {
                    db.set_user_canping(guild_id, user, perm);
                }
                push_setting_field(&mut fields, o, perm, "user cooldown");
            }
        } else if str_eq(o.name.as_str(), "exclude_from_cooldown") {
            if let OptionValue::Boolean(b) = o.value {
                proof {
                    assert(setting_option(opts[i as int]) is Some);
                }
                db.set_user_cooldown(guild_id, user, b);
                push_setting_field(&mut fields, o, PERMISSION::NEUTRAL, "user cooldown");
            }
        }
        proof {
            if setting_option(opts[i as int]) is Some {
                lemma_setting_kept(before.users, guild_id, user, setting_option(opts[i as int])->Some_0);
            } else {
                assert(fields_view(fields@) =~= fields_view(fields@) + Seq::<(Seq<char>, Seq<char>)>::empty());
                assert(before.with_users(before.users) == before);
            }
        }
        i += 1;
    }
    proof {
        assert(opts.take(options.len() as int) =~= opts);
    }
    Embed { color: None, description: None, fields }
}


// ---------------------------------------------------------------------------
// `/configure list`
// ---------------------------------------------------------------------------

/// The list name the subcommand gives, when its `list` option is a string.
pub open spec fn list_option(opts: Seq<OptionV>) -> Option<Seq<char>> {
    match find_option(opts, "list"@) {
        Some(o) => match o.value {
            ValueV::String(s) => Some(s),
            _ => None,
        },
        None => None,
    }
}

pub open spec fn list_step(v: DbView, list_id: u64, o: OptionV) -> (DbView, Seq<(Seq<char>, Seq<char>)>) {
    if o.name == "description"@ && o.value is String {
        let d = o.value->String_0;
        (v.with_lists(describe_lists(v.lists, list_id, d)), seq![("set description"@, d)])
    } else if o.name == "cooldown"@ && o.value is Integer {
        let c = o.value->Integer_0;
        (v.with_lists(update_lists(v.lists, list_id, ListField::Cooldown(c))), seq![("set cooldown"@, dec_i(c as int))])
    } else if o.name == "allow_join"@ && o.value is String {
        (v.with_lists(update_lists(v.lists, list_id, ListField::Join(perm_of_str(o.value->String_0)))),
            seq![("set joinable"@, o.value->String_0)])
    } else if o.name == "allow_ping"@ && o.value is String {
        (v.with_lists(update_lists(v.lists, list_id, ListField::Ping(perm_of_str(o.value->String_0)))),
            seq![("allow ping"@, o.value->String_0)])
    } else if o.name == "show"@ && o.value is Boolean {
        let b = o.value->Boolean_0;
        (v.with_lists(update_lists(v.lists, list_id, ListField::Visible(b))), seq![("set visible"@, bool_text(b))])
    } else {
        (v, Seq::empty())
    }
}

pub open spec fn list_stepper(list_id: u64) -> Step {
    |v: DbView, o: OptionV| list_step(v, list_id, o)
}

/// Each option has the type its name calls for, a permission string is one
/// `PERMISSION::from_str` accepts, and a cooldown is at least `-1`.
pub open spec fn list_option_ok(o: OptionV) -> bool {
    &&& o.name == "description"@ ==> o.value is String
    &&& o.name == "cooldown"@ ==> (o.value matches ValueV::Integer(c) && c >= -1)
    &&& (o.name == "allow_join"@ || o.name == "allow_ping"@) ==> (o.value matches ValueV::String(s) && perm_str_valid(s))
    &&& o.name == "show"@ ==> o.value is Boolean
}

pub open spec fn list_ok(v: DbView, guild_id: u64, opts: Seq<OptionV>) -> bool {
    &&& list_option(opts) is Some
    &&& list_named(v, list_option(opts)->Some_0, guild_id) is Some ==> forall|k: int| 0 <= k < opts.len() ==> list_option_ok(#[trigger] opts[k])
}

/// The store and the embed after `/configure list`.
pub open spec fn list_result(v: DbView, guild_id: u64, opts: Seq<OptionV>) -> (DbView, EmbedV) {
    let name = list_option(opts)->Some_0;
    match list_named(v, name, guild_id) {
        Some(id) => {
            let r = run_options(v, opts, list_stepper(id));
            (r.0, EmbedV { color: None, description: None, fields: r.1 })
        },
        None => (v, EmbedV {
            color: None,
            description: None,
            fields: seq![("List not found"@, "The list with name "@ + name + " was not found."@)],
        }),
    }
}

proof fn lemma_list_names_distinct()
    ensures
        "description"@ != "cooldown"@,
        "description"@ != "allow_join"@,
        "description"@ != "allow_ping"@,
        "description"@ != "show"@,
        "cooldown"@ != "allow_join"@,
        "cooldown"@ != "allow_ping"@,
        "cooldown"@ != "show"@,
        "allow_join"@ != "allow_ping"@,
        "allow_join"@ != "show"@,
        "allow_ping"@ != "show"@,
{
    reveal_strlit("description");
    reveal_strlit("cooldown");
    reveal_strlit("allow_join");
    reveal_strlit("allow_ping");
    reveal_strlit("show");
    assert("description"@.len() == 11);
    assert("cooldown"@.len() == 8);
    assert("allow_join"@.len() == 10);
    assert("allow_ping"@.len() == 10);
    assert("show"@.len() == 4);
    assert("allow_join"@[6] != "allow_ping"@[6]);
}

fn configure_list(db: &mut Database, guild_id: u64, options: &Vec<CommandOption>) -> (res: Embed)
    requires
        old(db)@.wf(),
        sql_int(guild_id),
        list_ok(old(db)@, guild_id, options_view(options@)),
    ensures
        final(db)@.wf(),
        (final(db)@, res@) == list_result(old(db)@, guild_id, options_view(options@)),
{
    let ghost v0 = db@;
    let ghost opts = options_view(options@);
    let list_str: String = match find_option_exec(options, "list") {
        Some(o) => match &o.value {
            OptionValue::String(s) => s.clone(),
            _ => String::new(),
        },
        None => String::new(),
    };
    assert(list_str@ == list_option(opts)->Some_0);
    let mut fields: Vec<(String, String)> = Vec::new();
    let found = db.get_list_id_by_name(list_str.as_str(), guild_id);
    let list = match found {
        Some(l) => l,
        None => {
            let mut t = String::from_str("The list with name ");
            t.append(list_str.as_str());
            t.append(" was not found.");
            push_field(&mut fields, "List not found", t);
            assert(fields_view(fields@) =~= seq![("List not found"@, "The list with name "@ + list_str@ + " was not found."@)]);
            return Embed { color: None, description: None, fields };
        },
    };
    proof {
        lemma_list_named_some(v0, list_str@, guild_id);
        let j = choose|j: int| 0 <= j < v0.lists.len() && #[trigger] v0.lists[j].id == list;
        assert(crate::database::list_row_ok(v0.lists[j]));
        lemma_list_names_distinct();
    }
    let ghost step = list_stepper(list);
    let mut i: usize = 0;
    while i < options.len()
        invariant
            i <= options.len(),
            db@.wf(),
            sql_int(list),
            has_list_row(db@.lists, list),
            opts == options_view(options@),
            step == list_stepper(list),
            forall|k: int| 0 <= k < opts.len() ==> list_option_ok(#[trigger] opts[k]),
            run_options(v0, opts.take(i as int), step) == (db@, fields_view(fields@)),
        decreases options.len() - i,
    {
        proof {
            lemma_run_options_step(v0, opts, step, i as int);
            assert(opts[i as int] == options@[i as int]@);
            assert(list_option_ok(opts[i as int]));
            lemma_list_names_distinct();
        }
        let o = &options[i];
        let ghost before = db@;
        let ghost f0 = fields_view(fields@);
        if str_eq(o.name.as_str(), "description") {
            if let OptionValue::String(d) = &o.value {
                db.set_description(list, d.as_str());
                push_field(&mut fields, "set description", d.clone());
            }
        } else if str_eq(o.name.as_str(), "cooldown") {
            if let OptionValue::Integer(c) = o.value {
                db.set_cooldown(list, c);
                let mut t = String::new();
                push_dec_i64(&mut t, c);
                assert(t@ =~= dec_i(c as int));
                push_field(&mut fields, "set cooldown", t);
            }
        } else if str_eq(o.name.as_str(), "allow_join") {
            if let OptionValue::String(j) = &o.value {
                let perm = option_perm(o);
                db.set_joinable(list, perm);
                push_field(&mut fields, "set joinable", j.clone());
            }
        } else if str_eq(o.name.as_str(), "allow_ping") {
            if let OptionValue::String(j) = &o.value {
                let perm = option_perm(o);
                db.set_pingable(list, perm);
                push_field(&mut fields, "allow ping", j.clone());
            }
        } else if str_eq(o.name.as_str(), "show") {
            if let OptionValue::Boolean(b) = o.value {
                db.set_visible(list, b);
                let mut t = String::new();
                push_bool(&mut t, b);
                assert(t@ =~= bool_text(b));
                push_field(&mut fields, "set visible", t);
            }
        }
        proof {
            let sv = step(before, opts[i as int]);
            if sv.1.len() == 0 {
                assert(f0 + sv.1 =~= f0);
                assert(before.with_lists(before.lists) == before);
            }
            assert(fields_view(fields@) =~= f0 + sv.1);
            assert forall|id: u64| has_list_row(db@.lists, id) == has_list_row(before.lists, id) by {
                if has_list_row(before.lists, id) {
                    let q = choose|q: int| 0 <= q < before.lists.len() && #[trigger] before.lists[q].id == id;
                    assert(db@.lists[q].id == id);
                }
                if has_list_row(db@.lists, id) {
                    let q = choose|q: int| 0 <= q < db@.lists.len() && #[trigger] db@.lists[q].id == id;
                    assert(before.lists[q].id == id);
                }
            }
        }
        i += 1;
    }
    proof {
        assert(opts.take(options.len() as int) =~= opts);
    }
    Embed { color: None, description: None, fields }
}

// ---------------------------------------------------------------------------
// `/configure channel`
// ---------------------------------------------------------------------------

/// The channel the subcommand names.
pub open spec fn channel_option(opts: Seq<OptionV>) -> Option<u64> {
    match find_option(opts, "channel"@) {
        Some(o) => match o.value {
            ValueV::Channel(c, _) => Some(c),
            _ => None,
        },
        None => None,
    }
}

pub open spec fn channel_step(v: DbView, channel_id: u64, o: OptionV) -> (DbView, Seq<(Seq<char>, Seq<char>)>) {
    if o.name == "mentioning"@ && o.value is String {
        (v.with_channels(update_channels(ensure_channel(v.channels, channel_id), channel_id,
            ChannelField::Mentioning(perm_of_str(o.value->String_0)))),
            seq![("set mentioning"@, perm_text(perm_of_str(o.value->String_0)))])
    } else if o.name == "proposing"@ && o.value is String {
        (v.with_channels(update_channels(ensure_channel(v.channels, channel_id), channel_id,
            ChannelField::Proposing(perm_of_str(o.value->String_0)))),
            seq![("set proposing"@, perm_text(perm_of_str(o.value->String_0)))])
    } else if o.name == "visible_commands"@ && o.value is Boolean {
        let b = o.value->Boolean_0;
        (v.with_channels(update_channels(ensure_channel(v.channels, channel_id), channel_id,
            ChannelField::PublicCommands(b))), seq![("set public commands visible"@, bool_text(b))])
    } else {
        (v, Seq::empty())
    }
}

pub open spec fn channel_stepper(channel_id: u64) -> Step {
    |v: DbView, o: OptionV| channel_step(v, channel_id, o)
}

/// A permission given as a string is one `PERMISSION::from_str` accepts
/// (other types are skipped).
pub open spec fn channel_option_ok(o: OptionV) -> bool {
    (o.name == "mentioning"@ || o.name == "proposing"@) && o.value is String ==> perm_str_valid(o.value->String_0)
}

pub open spec fn channel_ok(opts: Seq<OptionV>) -> bool {
    &&& channel_option(opts) is Some
    &&& sql_int(channel_option(opts)->Some_0)
    &&& forall|k: int| 0 <= k < opts.len() ==> channel_option_ok(#[trigger] opts[k])
}

proof fn lemma_channel_names_distinct()
    ensures
        "mentioning"@ != "proposing"@,
        "mentioning"@ != "visible_commands"@,
        "proposing"@ != "visible_commands"@,
{
    reveal_strlit("mentioning");
    reveal_strlit("proposing");
    reveal_strlit("visible_commands");
    assert("mentioning"@.len() == 10);
    assert("proposing"@.len() == 9);
    assert("visible_commands"@.len() == 16);
}

fn configure_channel(db: &mut Database, options: &Vec<CommandOption>) -> (res: Embed)
    requires
        old(db)@.wf(),
        channel_ok(options_view(options@)),
    ensures
        final(db)@.wf(),
        ({
            let r = run_options(old(db)@, options_view(options@), channel_stepper(channel_option(options_view(options@))->Some_0));
            &&& final(db)@ == r.0
            &&& res@ == EmbedV { color: None, description: None, fields: r.1 }
        }),
{
    let ghost v0 = db@;
    let ghost opts = options_view(options@);
    let channel: u64 = match find_option_exec(options, "channel") {
        Some(o) => match o.value {
            OptionValue::Channel(c, _) => c,
            _ => 0,
        },
        None => 0,
    };
    let ghost step = channel_stepper(channel);
    let mut fields: Vec<(String, String)> = Vec::new();
    let mut i: usize = 0;
    while i < options.len()
        invariant
            i <= options.len(),
            db@.wf(),
            sql_int(channel),
            opts == options_view(options@),
            step == channel_stepper(channel),
            forall|k: int| 0 <= k < opts.len() ==> channel_option_ok(#[trigger] opts[k]),
            run_options(v0, opts.take(i as int), step) == (db@, fields_view(fields@)),
        decreases options.len() - i,
    {
        proof {
            lemma_run_options_step(v0, opts, step, i as int);
            assert(opts[i as int] == options@[i as int]@);
            assert(channel_option_ok(opts[i as int]));
            lemma_channel_names_distinct();
        }
        let o = &options[i];
        let ghost before = db@;
        let ghost f0 = fields_view(fields@);
        if str_eq(o.name.as_str(), "mentioning") {
            if let OptionValue::String(_) = &o.value {
                let perm = option_perm(o);
                let mut t = String::new();
                t.append(perm.to_text());
                assert(t@ =~= perm_text(perm));
                push_field(&mut fields, "set mentioning", t);
                db.set_channel_mentioning(channel, perm);
            }
        } else if str_eq(o.name.as_str(), "proposing") {
            if let OptionValue::String(_) = &o.value {
                let perm = option_perm(o);
                let mut t = String::new();
                t.append(perm.to_text());
                assert(t@ =~= perm_text(perm));
                push_field(&mut fields, "set proposing", t);
                db.set_channel_proposing(channel, perm);
            }
        } else if str_eq(o.name.as_str(), "visible_commands") {
            if let OptionValue::Boolean(b) = o.value {
                db.set_channel_public_visible(channel, b);
                let mut t = String::new();
                push_bool(&mut t, b);
                assert(t@ =~= bool_text(b));
                push_field(&mut fields, "set public commands visible", t);
            }
        }
        proof {
            let sv = step(before, opts[i as int]);
            if sv.1.len() == 0 {
                assert(f0 + sv.1 =~= f0);
                assert(before.with_channels(before.channels) == before);
            }
            assert(fields_view(fields@) =~= f0 + sv.1);
        }
        i += 1;
    }
    proof {
        assert(opts.take(options.len() as int) =~= opts);
    }
    Embed { color: None, description: None, fields }
}

// ---------------------------------------------------------------------------
// `/configure proposals` and `/configure log`
// ---------------------------------------------------------------------------

pub open spec fn proposals_step(v: DbView, guild_id: u64, o: OptionV) -> (DbView, Seq<(Seq<char>, Seq<char>)>) {
    if o.name == "enabled"@ && o.value is Boolean {
        let b = o.value->Boolean_0;
        (v.with_guilds(update_guilds(v.guilds, guild_id, GuildField::CanPropose(b))), seq![("enable proposals"@, bool_text(b))])
    } else if o.name == "timeout"@ && o.value is Integer {
        let t = o.value->Integer_0;
        (v.with_guilds(update_guilds(v.guilds, guild_id, GuildField::ProposeTimeout(t as u64))),
            seq![("proposal timeout"@, dec_i(t as int))])
    } else if o.name == "threshold"@ && o.value is Integer {
        let t = o.value->Integer_0;
        (v.with_guilds(update_guilds(v.guilds, guild_id, GuildField::ProposeThreshold(t as u64))),
            seq![("proposal threshold"@, dec_i(t as int))])
    } else {
        (v, Seq::empty())
    }
}

pub open spec fn proposals_stepper(guild_id: u64) -> Step {
    |v: DbView, o: OptionV| proposals_step(v, guild_id, o)
}

/// A timeout is more than two seconds and a threshold more than zero, as
/// the store demands of a known guild; neither is negative.
pub open spec fn proposals_option_ok(known_guild: bool, o: OptionV) -> bool {
    &&& o.name == "timeout"@ && o.value is Integer ==> o.value->Integer_0 >= 0
        && (known_guild ==> o.value->Integer_0 > 2)
    &&& o.name == "threshold"@ && o.value is Integer ==> o.value->Integer_0 >= 0
        && (known_guild ==> o.value->Integer_0 > 0)
}

proof fn lemma_proposal_names_distinct()
    ensures
        "enabled"@ != "timeout"@,
        "enabled"@ != "threshold"@,
        "timeout"@ != "threshold"@,
{
    reveal_strlit("enabled");
    reveal_strlit("timeout");
    reveal_strlit("threshold");
    assert("enabled"@.len() == 7);
    assert("timeout"@.len() == 7);
    assert("threshold"@.len() == 9);
    assert("enabled"@[0] != "timeout"@[0]);
}

fn configure_proposals(db: &mut Database, guild_id: u64, options: &Vec<CommandOption>) -> (res: Embed)
    requires
        old(db)@.wf(),
        sql_int(guild_id),
        forall|k: int| 0 <= k < options.len()
            ==> proposals_option_ok(has_guild_row(old(db)@.guilds, guild_id), #[trigger] options@[k]@),
    ensures
        final(db)@.wf(),
        ({
            let r = run_options(old(db)@, options_view(options@), proposals_stepper(guild_id));
            &&& final(db)@ == r.0
            &&& res@ == EmbedV { color: None, description: None, fields: r.1 }
        }),
{
    let ghost v0 = db@;
    let ghost opts = options_view(options@);
    let ghost known = has_guild_row(v0.guilds, guild_id);
    let ghost step = proposals_stepper(guild_id);
    let mut fields: Vec<(String, String)> = Vec::new();
    let mut i: usize = 0;
    while i < options.len()
        invariant
            i <= options.len(),
            db@.wf(),
            sql_int(guild_id),
            opts == options_view(options@),
            step == proposals_stepper(guild_id),
            known == has_guild_row(db@.guilds, guild_id),
            forall|k: int| 0 <= k < options.len() ==> proposals_option_ok(known, #[trigger] options@[k]@),
            run_options(v0, opts.take(i as int), step) == (db@, fields_view(fields@)),
        decreases options.len() - i,
    {
        proof {
            lemma_run_options_step(v0, opts, step, i as int);
            assert(opts[i as int] == options@[i as int]@);
            assert(proposals_option_ok(known, options@[i as int]@));
            lemma_proposal_names_distinct();
        }
        let o = &options[i];
        let ghost before = db@;
        let ghost f0 = fields_view(fields@);
        if str_eq(o.name.as_str(), "enabled") {
            if let OptionValue::Boolean(b) = o.value {
                db.set_guild_canpropose(guild_id, b);
                let mut t = String::new();
                push_bool(&mut t, b);
                assert(t@ =~= bool_text(b));
                push_field(&mut fields, "enable proposals", t);
            }
        } else if str_eq(o.name.as_str(), "timeout") {
            if let OptionValue::Integer(t) = o.value {
                db.set_propose_timeout(guild_id, t as u64);
                let mut s = String::new();
                push_dec_i64(&mut s, t);
                assert(s@ =~= dec_i(t as int));
                push_field(&mut fields, "proposal timeout", s);
            }
        } else if str_eq(o.name.as_str(), "threshold") {
            if let OptionValue::Integer(t) = o.value {
                db.set_propose_threshold(guild_id, t as u64);
                let mut s = String::new();
                push_dec_i64(&mut s, t);
                assert(s@ =~= dec_i(t as int));
                push_field(&mut fields, "proposal threshold", s);
            }
        }
        proof {
            let sv = step(before, opts[i as int]);
            if sv.1.len() == 0 {
                assert(f0 + sv.1 =~= f0);
                assert(before.with_guilds(before.guilds) == before);
            }
            assert(fields_view(fields@) =~= f0 + sv.1);
            assert(has_guild_row(db@.guilds, guild_id) == has_guild_row(before.guilds, guild_id)) by {
                if has_guild_row(before.guilds, guild_id) {
                    let q = choose|q: int| 0 <= q < before.guilds.len() && #[trigger] before.guilds[q].id == guild_id;
                    assert(db@.guilds[q].id == guild_id);
                }
                if has_guild_row(db@.guilds, guild_id) {
                    let q = choose|q: int| 0 <= q < db@.guilds.len() && #[trigger] db@.guilds[q].id == guild_id;
                    assert(before.guilds[q].id == guild_id);
                }
            }
        }
        i += 1;
    }
    proof {
        assert(opts.take(options.len() as int) =~= opts);
    }
    Embed { color: None, description: None, fields }
}

pub open spec fn log_step(v: DbView, guild_id: u64, o: OptionV) -> (DbView, Seq<(Seq<char>, Seq<char>)>) {
    if o.name == "set_channel"@ {
        match o.value {
            ValueV::Channel(c, name) => (
                v.with_guilds(update_guilds(v.guilds, guild_id, GuildField::LogChannel(c))),
                seq![("log channel"@, "log channel set to channel "@ + match name {
                    Some(n) => n,
                    None => "unnamed channel"@,
                })],
            ),
            _ => (v, Seq::empty()),
        }
    } else {
        (v, Seq::empty())
    }
}

pub open spec fn log_stepper(guild_id: u64) -> Step {
    |v: DbView, o: OptionV| log_step(v, guild_id, o)
}

pub open spec fn log_option_ok(o: OptionV) -> bool {
    o.name == "set_channel"@ ==> (o.value matches ValueV::Channel(c, _) && sql_int(c))
}

fn configure_log(db: &mut Database, guild_id: u64, options: &Vec<CommandOption>) -> (res: Embed)
    requires
        old(db)@.wf(),
        sql_int(guild_id),
        forall|k: int| 0 <= k < options.len() ==> log_option_ok(#[trigger] options@[k]@),
    ensures
        final(db)@.wf(),
        ({
            let r = run_options(old(db)@, options_view(options@), log_stepper(guild_id));
            &&& final(db)@ == r.0
            &&& res@ == EmbedV {
                color: Some((255, 0, 0)),
                description: Some("Configuring logging settings"@),
                fields: r.1,
            }
        }),
{
    let ghost v0 = db@;
    let ghost opts = options_view(options@);
    let ghost step = log_stepper(guild_id);
    let mut fields: Vec<(String, String)> = Vec::new();
    let mut i: usize = 0;
    while i < options.len()
        invariant
            i <= options.len(),
            db@.wf(),
            sql_int(guild_id),
            opts == options_view(options@),
            step == log_stepper(guild_id),
            forall|k: int| 0 <= k < options.len() ==> log_option_ok(#[trigger] options@[k]@),
            run_options(v0, opts.take(i as int), step) == (db@, fields_view(fields@)),
        decreases options.len() - i,
    {
        proof {
            lemma_run_options_step(v0, opts, step, i as int);
            assert(opts[i as int] == options@[i as int]@);
            assert(log_option_ok(options@[i as int]@));
        }
        let o = &options[i];
        let ghost before = db@;
        let ghost f0 = fields_view(fields@);
        if str_eq(o.name.as_str(), "set_channel") {
            if let OptionValue::Channel(c, name) = &o.value {
                let _ = db.set_log_channel(guild_id, Some(*c));
                let mut t = String::from_str("log channel set to channel ");
                match name {
                    Some(n) => t.append(n.as_str()),
                    None => t.append("unnamed channel"),
                }
                push_field(&mut fields, "log channel", t);
            }
        }
        proof {
            let sv = step(before, opts[i as int]);
            if sv.1.len() == 0 {
                assert(f0 + sv.1 =~= f0);
                assert(before.with_guilds(before.guilds) == before);
            }
            assert(fields_view(fields@) =~= f0 + sv.1);
        }
        i += 1;
    }
    proof {
        assert(opts.take(options.len() as int) =~= opts);
    }
    Embed {
        color: Some((255, 0, 0)),
        description: Some(String::from_str("Configuring logging settings")),
        fields,
    }
}


// ---------------------------------------------------------------------------
// `/configure`
// ---------------------------------------------------------------------------

pub open spec fn opt_options_view(o: Option<Vec<CommandOption>>) -> Option<Seq<OptionV>> {
    match o {
        Some(v) => Some(options_view(v@)),
        None => None,
    }
}

pub open spec fn guild_options_ok(o: Seq<OptionV>) -> bool {
    forall|k: int| 0 <= k < o.len() ==> guild_option_ok(#[trigger] o[k])
}

pub open spec fn proposals_options_ok(known_guild: bool, o: Seq<OptionV>) -> bool {
    forall|k: int| 0 <= k < o.len() ==> proposals_option_ok(known_guild, #[trigger] o[k])
}

pub open spec fn log_options_ok(o: Seq<OptionV>) -> bool {
    forall|k: int| 0 <= k < o.len() ==> log_option_ok(#[trigger] o[k])
}

pub open spec fn empty_embed() -> EmbedV {
    EmbedV { color: None, description: None, fields: Seq::empty() }
}

/// The subcommand runs to its end: the options have the types their names
/// call for and hold values the store accepts (the subcommand's value is
/// `None` when it carries no options).
pub open spec fn configure_ok(v: DbView, guild_id: u64, sub: Seq<char>, opts: Option<Seq<OptionV>>) -> bool {
    if sub == "show"@ {
        has_guild_row(v.guilds, guild_id)
    } else {
        match opts {
            None => true,
            Some(o) => if sub == "guild"@ {
                guild_options_ok(o)
            } else if sub == "role"@ {
                subject_ok(v, v.roles, guild_id, o, "role"@)
            } else if sub == "user"@ {
                subject_ok(v, v.users, guild_id, o, "user"@)
            } else if sub == "list"@ {
                list_ok(v, guild_id, o)
            } else if sub == "channel"@ {
                channel_ok(o)
            } else if sub == "proposals"@ {
                proposals_options_ok(has_guild_row(v.guilds, guild_id), o)
            } else if sub == "log"@ {
                log_options_ok(o)
            } else {
                true
            },
        }
    }
}

/// The store and the embed after `/configure` by a moderator.
pub open spec fn configure_result(v: DbView, guild_id: u64, sub: Seq<char>, opts: Option<Seq<OptionV>>) -> (DbView, EmbedV) {
    if sub == "show"@ {
        (v, show_embed(v, guild_id))
    } else {
        match opts {
            None => (v, empty_embed()),
            Some(o) => if sub == "guild"@ {
                let r = run_options(v, o, guild_stepper(guild_id));
                (r.0, EmbedV { color: Some((255, 0, 0)), description: Some("Configuring guild settings"@), fields: r.1 })
            } else if sub == "role"@ {
                let r = run_options(v, o, role_stepper(guild_id, subject_id(o, "role"@)->Some_0));
                (r.0, EmbedV { color: None, description: None, fields: r.1 })
            } else if sub == "user"@ {
                let r = run_options(v, o, user_stepper(guild_id, subject_id(o, "user"@)->Some_0));
                (r.0, EmbedV { color: None, description: None, fields: r.1 })
            } else if sub == "list"@ {
                list_result(v, guild_id, o)
            } else if sub == "channel"@ {
                let r = run_options(v, o, channel_stepper(channel_option(o)->Some_0));
                (r.0, EmbedV { color: None, description: None, fields: r.1 })
            } else if sub == "proposals"@ {
                let r = run_options(v, o, proposals_stepper(guild_id));
                (r.0, EmbedV { color: None, description: None, fields: r.1 })
            } else if sub == "log"@ {
                let r = run_options(v, o, log_stepper(guild_id));
                (r.0, EmbedV { color: Some((255, 0, 0)), description: Some("Configuring logging settings"@), fields: r.1 })
            } else {
                (v, empty_embed())
            },
        }
    }
}

proof fn lemma_subcommand_names_distinct()
    ensures
        "show"@ != "guild"@,
        "show"@ != "role"@,
        "show"@ != "user"@,
        "show"@ != "list"@,
        "show"@ != "channel"@,
        "show"@ != "proposals"@,
        "show"@ != "log"@,
        "guild"@ != "role"@,
        "guild"@ != "user"@,
        "guild"@ != "list"@,
        "guild"@ != "channel"@,
        "guild"@ != "proposals"@,
        "guild"@ != "log"@,
        "role"@ != "user"@,
        "role"@ != "list"@,
        "role"@ != "channel"@,
        "role"@ != "proposals"@,
        "role"@ != "log"@,
        "user"@ != "list"@,
        "user"@ != "channel"@,
        "user"@ != "proposals"@,
        "user"@ != "log"@,
        "list"@ != "channel"@,
        "list"@ != "proposals"@,
        "list"@ != "log"@,
        "channel"@ != "proposals"@,
        "channel"@ != "log"@,
        "proposals"@ != "log"@,
{
    reveal_strlit("show");
    reveal_strlit("guild");
    reveal_strlit("role");
    reveal_strlit("user");
    reveal_strlit("list");
    reveal_strlit("channel");
    reveal_strlit("proposals");
    reveal_strlit("log");
    assert("show"@.len() == 4);
    assert("guild"@.len() == 5);
    assert("role"@.len() == 4);
    assert("user"@.len() == 4);
    assert("list"@.len() == 4);
    assert("channel"@.len() == 7);
    assert("proposals"@.len() == 9);
    assert("log"@.len() == 3);
    assert("show"@[0] == 's');
    assert("guild"@[0] == 'g');
    assert("role"@[0] == 'r');
    assert("user"@[0] == 'u');
    assert("list"@[0] == 'l');
    assert("channel"@[0] == 'c');
    assert("proposals"@[0] == 'p');
    assert("log"@[0] == 'l');
}

/// `/configure`: only a moderator may change the settings; the subcommand
/// `sub` then applies its options in order and reports each in a field.
pub fn configure(
    db: &mut Database,
    guild_id: u64,
    member_admin: bool,
    sub: &str,
    options: &Option<Vec<CommandOption>>,
) -> (res: Result<Embed, Reply>)
    requires
        old(db)@.wf(),
        sql_int(guild_id),
        member_admin ==> configure_ok(old(db)@, guild_id, sub@, opt_options_view(*options)),
    ensures
        final(db)@.wf(),
        !member_admin ==> final(db)@ == old(db)@ && (res matches Err(r) && r@ == (not_allowed_text(), true)),
        member_admin ==> (res matches Ok(e) && (final(db)@, e@) == configure_result(old(db)@, guild_id, sub@, opt_options_view(*options))),
{
    if !member_admin {
        return Err(not_allowed());
    }
    proof {
        lemma_subcommand_names_distinct();
    }
    if str_eq(sub, "show") {
        return Ok(configure_show(db, guild_id));
    }
    let opts = match options {
        Some(o) => o,
        None => {
            let fields: Vec<(String, String)> = Vec::new();
            assert(fields_view(fields@) =~= Seq::<(Seq<char>, Seq<char>)>::empty());
            return Ok(Embed { color: None, description: None, fields });
        },
    };
    let ghost ov = options_view(opts@);
    assert(opt_options_view(*options) == Some(ov));
    assert(forall|k: int| 0 <= k < opts.len() ==> ov[k] == #[trigger] opts@[k]@);
    if str_eq(sub, "guild") {
        proof {
            assert(sub@ == "guild"@);
            assert(sub@ != "show"@);
            assert(guild_options_ok(ov));
            assert forall|k: int| 0 <= k < opts.len() implies guild_option_ok(#[trigger] opts@[k]@) by {
                assert(ov[k] == opts@[k]@);
                assert(guild_option_ok(ov[k]));
            }
        }
        Ok(configure_guild(db, guild_id, opts))
    } else if str_eq(sub, "role") {
        Ok(configure_role(db, guild_id, opts))
    } else if str_eq(sub, "user") {
        Ok(configure_user(db, guild_id, opts))
    } else if str_eq(sub, "list") {
        Ok(configure_list(db, guild_id, opts))
    } else if str_eq(sub, "channel") {
        Ok(configure_channel(db, opts))
    } else if str_eq(sub, "proposals") {
        proof {
            assert forall|k: int| 0 <= k < opts.len() implies proposals_option_ok(has_guild_row(db@.guilds, guild_id), #[trigger] opts@[k]@) by {
                assert(ov[k] == opts@[k]@);
                assert(proposals_option_ok(has_guild_row(db@.guilds, guild_id), ov[k]));
            }
        }
        Ok(configure_proposals(db, guild_id, opts))
    } else if str_eq(sub, "log") {
        proof {
            assert forall|k: int| 0 <= k < opts.len() implies log_option_ok(#[trigger] opts@[k]@) by {
                assert(ov[k] == opts@[k]@);
                assert(log_option_ok(ov[k]));
            }
        }
        Ok(configure_log(db, guild_id, opts))
    } else {
        let fields: Vec<(String, String)> = Vec::new();
        assert(fields_view(fields@) =~= Seq::<(Seq<char>, Seq<char>)>::empty());
        Ok(Embed { color: None, description: None, fields })
    }
}


// ---------------------------------------------------------------------------
// Checking that `/configure` can run
// ---------------------------------------------------------------------------

fn perm_valid(s: &String) -> (res: bool)
    ensures
        res == perm_str_valid(s@),
{
    match PERMISSION::from_str(s.as_str()) {
        Ok(_) => true,
        Err(_) => false,
    }
}

fn guild_option_valid(o: &CommandOption) -> (res: bool)
    ensures
        res == guild_option_ok(o@),
{
    proof {
        reveal_strlit("allow_ping");
        reveal_strlit("set_guild_ping_cooldown");
        reveal_strlit("set_list_ping_cooldown");
        assert("allow_ping"@.len() == 10);
        assert("set_guild_ping_cooldown"@.len() == 23);
        assert("set_list_ping_cooldown"@.len() == 22);
    }
    if str_eq(o.name.as_str(), "allow_ping") {
        matches!(o.value, OptionValue::Boolean(_))
    } else if str_eq(o.name.as_str(), "set_guild_ping_cooldown") || str_eq(o.name.as_str(), "set_list_ping_cooldown") {
        match o.value {
            OptionValue::Integer(b) => b >= 0,
            _ => false,
        }
    } else {
        true
    }
}

fn subject_option_valid(o: &CommandOption) -> (res: bool)
    ensures
        res == subject_option_ok(o@),
{
    proof {
        lemma_setting_names_distinct();
    }
    if str_eq(o.name.as_str(), "propose") || str_eq(o.name.as_str(), "ping") {
        match &o.value {
            OptionValue::String(s) => perm_valid(s),
            _ => false,
        }
    } else if str_eq(o.name.as_str(), "exclude_from_cooldown") {
        matches!(o.value, OptionValue::Boolean(_))
    } else {
        true
    }
}

fn is_setting_option(o: &CommandOption) -> (res: bool)
    ensures
        res == (setting_option(o@) is Some),
{
    proof {
        lemma_setting_names_distinct();
    }
    if str_eq(o.name.as_str(), "propose") || str_eq(o.name.as_str(), "ping") {
        matches!(o.value, OptionValue::String(_))
    } else if str_eq(o.name.as_str(), "exclude_from_cooldown") {
        matches!(o.value, OptionValue::Boolean(_))
    } else {
        false
    }
}

fn list_option_valid(o: &CommandOption) -> (res: bool)
    ensures
        res == list_option_ok(o@),
{
    proof {
        lemma_list_names_distinct();
    }
    if str_eq(o.name.as_str(), "description") {
        matches!(o.value, OptionValue::String(_))
    } else if str_eq(o.name.as_str(), "cooldown") {
        match o.value {
            OptionValue::Integer(c) => c >= -1,
            _ => false,
        }
    } else if str_eq(o.name.as_str(), "allow_join") || str_eq(o.name.as_str(), "allow_ping") {
        match &o.value {
            OptionValue::String(s) => perm_valid(s),
            _ => false,
        }
    } else if str_eq(o.name.as_str(), "show") {
        matches!(o.value, OptionValue::Boolean(_))
    } else {
        true
    }
}

fn channel_option_valid(o: &CommandOption) -> (res: bool)
    ensures
        res == channel_option_ok(o@),
{
    if str_eq(o.name.as_str(), "mentioning") || str_eq(o.name.as_str(), "proposing") {
        match &o.value {
            OptionValue::String(s) => perm_valid(s),
            _ => true,
        }
    } else {
        true
    }
}

fn proposals_option_valid(known_guild: bool, o: &CommandOption) -> (res: bool)
    ensures
        res == proposals_option_ok(known_guild, o@),
{
    proof {
        lemma_proposal_names_distinct();
    }
    if str_eq(o.name.as_str(), "timeout") {
        match o.value {
            OptionValue::Integer(t) => t >= 0 && (!known_guild || t > 2),
            _ => true,
        }
    } else if str_eq(o.name.as_str(), "threshold") {
        match o.value {
            OptionValue::Integer(t) => t >= 0 && (!known_guild || t > 0),
            _ => true,
        }
    } else {
        true
    }
}

fn log_option_valid(o: &CommandOption) -> (res: bool)
    ensures
        res == log_option_ok(o@),
{
    if str_eq(o.name.as_str(), "set_channel") {
        match o.value {
            OptionValue::Channel(c, _) => c <= crate::database::I64_MAX,
            _ => false,
        }
    } else {
        true
    }
}

/// Which per-option check a subcommand makes.
#[derive(PartialEq, Eq, Structural, Clone, Copy)]
enum OptionCheck {
    Guild,
    Subject,
    SettingWritten,
    List,
    Channel,
    Proposals(bool),
    Log,
}

spec fn option_check_ok(c: OptionCheck, o: OptionV) -> bool {
    match c {
        OptionCheck::Guild => guild_option_ok(o),
        OptionCheck::Subject => subject_option_ok(o),
        OptionCheck::SettingWritten => !(setting_option(o) is Some),
        OptionCheck::List => list_option_ok(o),
        OptionCheck::Channel => channel_option_ok(o),
        OptionCheck::Proposals(k) => proposals_option_ok(k, o),
        OptionCheck::Log => log_option_ok(o),
    }
}

fn option_check(c: OptionCheck, o: &CommandOption) -> (res: bool)
    ensures
        res == option_check_ok(c, o@),
{
    match c {
        OptionCheck::Guild => guild_option_valid(o),
        OptionCheck::Subject => subject_option_valid(o),
        OptionCheck::SettingWritten => !is_setting_option(o),
        OptionCheck::List => list_option_valid(o),
        OptionCheck::Channel => channel_option_valid(o),
        OptionCheck::Proposals(k) => proposals_option_valid(k, o),
        OptionCheck::Log => log_option_valid(o),
    }
}

/// Every option passes the check.
fn all_options(c: OptionCheck, options: &Vec<CommandOption>) -> (res: bool)
    ensures
        res == forall|k: int| 0 <= k < options.len() ==> option_check_ok(c, #[trigger] options_view(options@)[k]),
{
    let ghost ov = options_view(options@);
    let mut i: usize = 0;
    while i < options.len()
        invariant
            i <= options.len(),
            ov == options_view(options@),
            forall|k: int| 0 <= k < i ==> option_check_ok(c, #[trigger] ov[k]),
        decreases options.len() - i,
    {
        assert(ov[i as int] == options@[i as int]@);
        if !option_check(c, &options[i]) {
            return false;
        }
        i += 1;
    }
    true
}

fn subject_valid(db: &Database, rows: &Vec<SettingRow>, guild_id: u64, options: &Vec<CommandOption>, key_name: &str) -> (res: bool)
    ensures
        res == subject_ok(db@, rows@, guild_id, options_view(options@), key_name@),
{
    let ghost ov = options_view(options@);
    proof {
        reveal_strlit("role");
        reveal_strlit("user");
        assert("role"@[0] != "user"@[0]);
    }
    let id: u64 = match find_option_exec(options, key_name) {
        Some(o) => match o.value {
            OptionValue::Role(r) => {
                if !str_eq(key_name, "role") {
                    return false;
                }
                r
            },
            OptionValue::User(u) => {
                if !str_eq(key_name, "user") {
                    return false;
                }
                u
            },
            _ => {
                return false;
            },
        },
        None => {
            return false;
        },
    };
    if id > crate::database::I64_MAX {
        return false;
    }
    if !all_options(OptionCheck::Subject, options) {
        return false;
    }
    if all_options(OptionCheck::SettingWritten, options) {
        proof {
            if has_setting_option(ov) {
                let k = choose|k: int| 0 <= k < ov.len() && (#[trigger] setting_option(ov[k])) is Some;
                assert(option_check_ok(OptionCheck::SettingWritten, ov[k]));
            }
        }
        return true;
    }
    key_present(rows, id) || db.guild_known(guild_id)
}

/// Whether `/configure` with these arguments runs to its end (see
/// `configure_ok`); where it does not, the command has no defined outcome.
pub fn configure_valid(db: &mut Database, guild_id: u64, sub: &str, options: &Option<Vec<CommandOption>>) -> (res: bool)
    requires
        old(db)@.wf(),
        sql_int(guild_id),
    ensures
        final(db)@ == old(db)@,
        res == configure_ok(old(db)@, guild_id, sub@, opt_options_view(*options)),
{
    proof {
        lemma_subcommand_names_distinct();
    }
    if str_eq(sub, "show") {
        return db.guild_known(guild_id);
    }
    let opts = match options {
        Some(o) => o,
        None => {
            return true;
        },
    };
    let ghost ov = options_view(opts@);
    if str_eq(sub, "guild") {
        all_options(OptionCheck::Guild, opts)
    } else if str_eq(sub, "role") {
        subject_valid(db, &db.role_settings, guild_id, opts, "role")
    } else if str_eq(sub, "user") {
        subject_valid(db, &db.user_settings, guild_id, opts, "user")
    } else if str_eq(sub, "list") {
        let name: String = match find_option_exec(opts, "list") {
            Some(o) => match &o.value {
                OptionValue::String(s) => s.clone(),
                _ => {
                    return false;
                },
            },
            None => {
                return false;
            },
        };
        match db.get_list_id_by_name(name.as_str(), guild_id) {
            Some(_) => all_options(OptionCheck::List, opts),
            None => true,
        }
    } else if str_eq(sub, "channel") {
        let c: u64 = match find_option_exec(opts, "channel") {
            Some(o) => match o.value {
                OptionValue::Channel(c, _) => c,
                _ => {
                    return false;
                },
            },
            None => {
                return false;
            },
        };
        c <= crate::database::I64_MAX && all_options(OptionCheck::Channel, opts)
    } else if str_eq(sub, "proposals") {
        let known = db.guild_known(guild_id);
        all_options(OptionCheck::Proposals(known), opts)
    } else if str_eq(sub, "log") {
        all_options(OptionCheck::Log, opts)
    } else {
        true
    }
}

} // verus!
