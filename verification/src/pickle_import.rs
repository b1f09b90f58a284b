use vstd::prelude::*;
use vstd::string::*;

use crate::database::{
    ConditionRow, Database, DbView, GuildField, GuildRow, condition_row_ok, response_row_ok, I64_MAX, ResponseV, default_guild, has_guild_row, sql_int, update_guilds,
};
use crate::db_settings::{ChannelField, SettingField, ensure_channel, ensure_setting, update_channels, update_settings};
use crate::structures::PERMISSION;
use crate::db_responses::{new_response, next_condition_id, next_response_id, trigger_ok};
use crate::structures::{LOGCONDITION, LOGTRIGGER};
use crate::text::str_eq;
use serde_pickle::value::{HashableValue, Value};

verus! {

// ---------------------------------------------------------------------------
// Saved guild data, as read from a pickle file
// ---------------------------------------------------------------------------

/// A value of the saved data. Dictionaries and sets hold their entries in the
/// order they are read.
pub enum PickleValue {
    Bool(bool),
    I64(i64),
    String(String),
    List(Vec<PickleValue>),
    Tuple(Vec<PickleValue>),
    SetOf(Vec<PickleValue>),
    Dict(Vec<(PickleValue, PickleValue)>),
    Other,
}

/// An id: a number that is not negative.
pub open spec fn id_ok(x: PickleValue) -> bool {
    x matches PickleValue::I64(i) && i >= 0
}

pub open spec fn ids_ok(xs: Seq<PickleValue>) -> bool {
    forall|k: int| 0 <= k < xs.len() ==> id_ok(#[trigger] xs[k])
}

pub open spec fn id_of(x: PickleValue) -> u64 {
    (x->I64_0) as u64
}

pub open spec fn text_of(x: PickleValue) -> Seq<char> {
    x->String_0@
}

pub open spec fn is_key(x: PickleValue, k: Seq<char>) -> bool {
    x is String && text_of(x) == k
}

// ---------------------------------------------------------------------------
// Conditions of a role log: `hasRole` and `notHasRole` sets
// ---------------------------------------------------------------------------

/// A restriction: a name and a set of role ids.
pub open spec fn restriction_ok(e: (PickleValue, PickleValue)) -> bool {
    e.0 is String && e.1 is SetOf && ids_ok(e.1->SetOf_0@)
}

pub open spec fn restrictions_ok(rs: Seq<(PickleValue, PickleValue)>) -> bool {
    forall|k: int| 0 <= k < rs.len() ==> restriction_ok(#[trigger] rs[k])
}

/// The roles of one restriction, each with whether it is inverted (the
/// `notHasRole` set).
pub open spec fn restriction_roles(e: (PickleValue, PickleValue)) -> Seq<(u64, bool)> {
    let inv = text_of(e.0) == "notHasRole"@;
    (e.1->SetOf_0@).map_values(|x: PickleValue| (id_of(x), inv))
}

/// The conditions the restrictions ask for, in order.
pub open spec fn restriction_items(rs: Seq<(PickleValue, PickleValue)>) -> Seq<(u64, bool)>
    decreases rs.len(),
{
    if rs.len() == 0 {
        Seq::empty()
    } else {
        restriction_items(rs.drop_last()) + restriction_roles(rs.last())
    }
}

/// The conditions table after adding a condition per item to response
/// `log_id`.
pub open spec fn add_conditions(cs: Seq<ConditionRow>, log_id: u64, items: Seq<(u64, bool)>) -> Seq<ConditionRow>
    decreases items.len(),
{
    if items.len() == 0 {
        cs
    } else {
        let c = add_conditions(cs, log_id, items.drop_last());
        c.push(ConditionRow {
            id: next_condition_id(c),
            rolelog_id: log_id,
            cond_type: 0,
            acomp_id: items.last().0,
            invert: items.last().1,
        })
    }
}

/// The key of the last row, 0 when there is none.
pub open spec fn last_condition_id(cs: Seq<ConditionRow>) -> int {
    if cs.len() == 0 {
        0
    } else {
        cs.last().id as int
    }
}

pub open spec fn last_response_id(rs: Seq<ResponseV>) -> int {
    if rs.len() == 0 {
        0
    } else {
        rs.last().id as int
    }
}

proof fn lemma_add_conditions_push(cs: Seq<ConditionRow>, log_id: u64, items: Seq<(u64, bool)>, x: (u64, bool))
    ensures
        add_conditions(cs, log_id, items.push(x)) == ({
            let c = add_conditions(cs, log_id, items);
            c.push(ConditionRow { id: next_condition_id(c), rolelog_id: log_id, cond_type: 0, acomp_id: x.0, invert: x.1 })
        }),
{
    assert(items.push(x).drop_last() =~= items);
}

fn import_conditions(db: &mut Database, log_id: u64, rs: &Vec<(PickleValue, PickleValue)>)
    requires
        old(db)@.wf(),
        sql_int(log_id),
        crate::database::has_response_row(old(db)@.responses, log_id),
        restrictions_ok(rs@),
        last_condition_id(old(db)@.conditions) + restriction_items(rs@).len() <= I64_MAX,
    ensures
        final(db)@.wf(),
        final(db)@ == old(db)@.with_conditions(add_conditions(old(db)@.conditions, log_id, restriction_items(rs@))),
{
    let ghost v = db@;
    let mut i: usize = 0;
    proof {
        assert(rs@.take(0) =~= Seq::<(PickleValue, PickleValue)>::empty());
        assert(v.with_conditions(v.conditions) == v);
    }
    while i < rs.len()
        invariant
            i <= rs.len(),
            db@.wf(),
            sql_int(log_id),
            crate::database::has_response_row(db@.responses, log_id),
            db@.responses == v.responses,
            restrictions_ok(rs@),
            last_condition_id(v.conditions) + restriction_items(rs@).len() <= I64_MAX,
            db@ == v.with_conditions(add_conditions(v.conditions, log_id, restriction_items(rs@.take(i as int)))),
        decreases rs.len() - i,
    {
        proof {
            assert(rs@.take(i + 1).drop_last() =~= rs@.take(i as int));
            assert(rs@.take(i + 1).last() == rs@[i as int]);
            assert(restriction_ok(rs@[i as int]));
            lemma_items_prefix(rs@, i as int + 1);
        }
        let (key, set) = (&rs[i].0, &rs[i].1);
        let invert = match key {
            PickleValue::String(k) => str_eq(k.as_str(), "notHasRole"),
            _ => false,
        };
        assert(invert == (text_of(rs@[i as int].0) == "notHasRole"@));
        let ids: &Vec<PickleValue> = match set {
            PickleValue::SetOf(ids) => ids,
            _ => {
                return;
            },
        };
        let ghost before = restriction_items(rs@.take(i as int));
        let ghost roles = restriction_roles(rs@[i as int]);
        let mut j: usize = 0;
        proof {
            assert(roles.take(0) =~= Seq::<(u64, bool)>::empty());
            assert(before + roles.take(0) =~= before);
        }
        while j < ids.len()
            invariant
                j <= ids.len(),
                i < rs.len(),
                rs@[i as int].0 is String,
                invert == (text_of(rs@[i as int].0) == "notHasRole"@),
                db@.wf(),
                sql_int(log_id),
                crate::database::has_response_row(db@.responses, log_id),
                db@.responses == v.responses,
                ids@ == rs@[i as int].1->SetOf_0@,
                ids_ok(ids@),
                roles == restriction_roles(rs@[i as int]),
                roles.len() == ids.len(),
                last_condition_id(v.conditions) + (before + roles).len() <= I64_MAX,
                db@ == v.with_conditions(add_conditions(v.conditions, log_id, before + roles.take(j as int))),
            decreases ids.len() - j,
        {
            let r: u64 = match ids[j] {
                PickleValue::I64(x) => x as u64,
                _ => 0,
            };
            proof {
                assert(id_ok(ids@[j as int]));
                assert(r == id_of(ids@[j as int]));
                assert(roles[j as int] == (r, invert));
                assert((before + roles.take(j + 1)) =~= (before + roles.take(j as int)).push((r, invert)));
                lemma_add_conditions_push(v.conditions, log_id, before + roles.take(j as int), (r, invert));
                lemma_add_conditions_last(v.conditions, log_id, before + roles.take(j as int));
            }
            db.add_response_condition(log_id, LOGCONDITION::HasRole(r), invert);
            j += 1;
        }
        proof {
            assert(roles.take(ids.len() as int) =~= roles);
        }
        i += 1;
    }
    proof {
        assert(rs@.take(rs.len() as int) =~= rs@);
    }
}

proof fn lemma_items_prefix(rs: Seq<(PickleValue, PickleValue)>, i: int)
    requires
        0 <= i <= rs.len(),
    ensures
        restriction_items(rs.take(i)).len() <= restriction_items(rs).len(),
    decreases rs.len() - i,
{
    if i < rs.len() {
        lemma_items_prefix(rs, i + 1);
        assert(rs.take(i + 1).drop_last() =~= rs.take(i));
    } else {
        assert(rs.take(i) =~= rs);
    }
}

/// Adding conditions moves the last key up by one per item.
proof fn lemma_add_conditions_last(cs: Seq<ConditionRow>, log_id: u64, items: Seq<(u64, bool)>)
    requires
        last_condition_id(cs) + items.len() <= I64_MAX,
    ensures
        last_condition_id(add_conditions(cs, log_id, items)) == last_condition_id(cs) + items.len(),
    decreases items.len(),
{
    if items.len() > 0 {
        lemma_add_conditions_last(cs, log_id, items.drop_last());
    }
}


// ---------------------------------------------------------------------------
// Role logs: `roleLogAdd` and `roleLogRemove`
// ---------------------------------------------------------------------------

/// A role log: channel id, message and restrictions.
pub open spec fn info_ok(info: Seq<PickleValue>) -> bool {
    &&& info.len() == 3
    &&& id_ok(info[0])
    &&& info[1] is String
    &&& info[2] is Dict
    &&& restrictions_ok(info[2]->Dict_0@)
}

pub open spec fn role_log_ok(e: (PickleValue, PickleValue)) -> bool {
    id_ok(e.0) && e.1 is Tuple && info_ok(e.1->Tuple_0@)
}

pub open spec fn role_logs_ok(es: Seq<(PickleValue, PickleValue)>) -> bool {
    forall|k: int| 0 <= k < es.len() ==> role_log_ok(#[trigger] es[k])
}

pub open spec fn log_trigger(add: bool, role: u64) -> LOGTRIGGER {
    if add {
        LOGTRIGGER::RoleAdd(role)
    } else {
        LOGTRIGGER::RoleRemove(role)
    }
}

/// The store after one role log became an automatic response with its
/// conditions.
pub open spec fn role_log_added(v: DbView, guild_id: u64, t: LOGTRIGGER, info: Seq<PickleValue>) -> DbView {
    let id = next_response_id(v.responses);
    let v1 = v.with_responses(v.responses.push(new_response(id, guild_id, t, id_of(info[0]), text_of(info[1]))));
    v1.with_conditions(add_conditions(v1.conditions, id, restriction_items(info[2]->Dict_0@)))
}

/// How many conditions the role logs bring.
pub open spec fn log_conditions(es: Seq<(PickleValue, PickleValue)>) -> nat
    decreases es.len(),
{
    if es.len() == 0 {
        0
    } else {
        log_conditions(es.drop_last()) + restriction_items((es.last().1->Tuple_0@)[2]->Dict_0@).len()
    }
}

pub open spec fn role_logs_added(v: DbView, guild_id: u64, add: bool, es: Seq<(PickleValue, PickleValue)>) -> DbView
    decreases es.len(),
{
    if es.len() == 0 {
        v
    } else {
        role_log_added(role_logs_added(v, guild_id, add, es.drop_last()), guild_id,
            log_trigger(add, id_of(es.last().0)), es.last().1->Tuple_0@)
    }
}

proof fn lemma_log_conditions_prefix(es: Seq<(PickleValue, PickleValue)>, i: int)
    requires
        0 <= i <= es.len(),
    ensures
        log_conditions(es.take(i)) <= log_conditions(es),
    decreases es.len() - i,
{
    if i < es.len() {
        lemma_log_conditions_prefix(es, i + 1);
        assert(es.take(i + 1).drop_last() =~= es.take(i));
    } else {
        assert(es.take(i) =~= es);
    }
}

fn import_role_log(db: &mut Database, guild_id: u64, t: LOGTRIGGER, info: &Vec<PickleValue>)
    requires
        old(db)@.wf(),
        sql_int(guild_id),
        has_guild_row(old(db)@.guilds, guild_id),
        trigger_ok(t),
        info_ok(info@),
        last_response_id(old(db)@.responses) + 1 <= I64_MAX,
        last_condition_id(old(db)@.conditions) + restriction_items((info@[2])->Dict_0@).len() <= I64_MAX,
    ensures
        final(db)@.wf(),
        final(db)@ == role_log_added(old(db)@, guild_id, t, info@),
        final(db)@.guilds == old(db)@.guilds,
        last_response_id(final(db)@.responses) == last_response_id(old(db)@.responses) + 1,
        last_condition_id(final(db)@.conditions)
            == last_condition_id(old(db)@.conditions) + restriction_items((info@[2])->Dict_0@).len(),
{
    let ghost v = db@;
    let channel: u64 = match info[0] {
        PickleValue::I64(c) => c as u64,
        _ => 0,
    };
    let message: &String = match &info[1] {
        PickleValue::String(m) => m,
        _ => {
            return;
        },
    };
    let rs: &Vec<(PickleValue, PickleValue)> = match &info[2] {
        PickleValue::Dict(rs) => rs,
        _ => {
            return;
        },
    };
    proof {
        assert(id_ok(info@[0]));
        assert(channel == id_of(info@[0]));
    }
    let log_id = match db.add_response(guild_id, t, channel, message.as_str()) {
        Ok(id) => id,
        Err(_) => {
            return;
        },
    };
    proof {
        let n = db@;
        assert(n.responses[n.responses.len() - 1].id == log_id);
        assert(crate::database::has_response_row(n.responses, log_id));
        lemma_add_conditions_last(v.conditions, log_id, restriction_items(rs@));
    }
    import_conditions(db, log_id, rs);
}

fn import_role_logs(db: &mut Database, guild_id: u64, add: bool, es: &Vec<(PickleValue, PickleValue)>)
    requires
        old(db)@.wf(),
        sql_int(guild_id),
        has_guild_row(old(db)@.guilds, guild_id),
        role_logs_ok(es@),
        last_response_id(old(db)@.responses) + es@.len() <= I64_MAX,
        last_condition_id(old(db)@.conditions) + log_conditions(es@) <= I64_MAX,
    ensures
        final(db)@.wf(),
        final(db)@ == role_logs_added(old(db)@, guild_id, add, es@),
        final(db)@.guilds == old(db)@.guilds,
        last_response_id(final(db)@.responses) == last_response_id(old(db)@.responses) + es@.len(),
        last_condition_id(final(db)@.conditions) == last_condition_id(old(db)@.conditions) + log_conditions(es@),
{
    let ghost v = db@;
    let mut i: usize = 0;
    proof {
        assert(es@.take(0) =~= Seq::<(PickleValue, PickleValue)>::empty());
    }
    while i < es.len()
        invariant
            i <= es.len(),
            db@.wf(),
            sql_int(guild_id),
            has_guild_row(db@.guilds, guild_id),
            db@.guilds == v.guilds,
            role_logs_ok(es@),
            last_response_id(v.responses) + es@.len() <= I64_MAX,
            last_condition_id(v.conditions) + log_conditions(es@) <= I64_MAX,
            db@ == role_logs_added(v, guild_id, add, es@.take(i as int)),
            last_response_id(db@.responses) == last_response_id(v.responses) + i,
            last_condition_id(db@.conditions) == last_condition_id(v.conditions) + log_conditions(es@.take(i as int)),
        decreases es.len() - i,
    {
        proof {
            assert(es@.take(i + 1).drop_last() =~= es@.take(i as int));
            assert(es@.take(i + 1).last() == es@[i as int]);
            assert(role_log_ok(es@[i as int]));
            lemma_log_conditions_prefix(es@, i + 1);
        }
        let role: u64 = match es[i].0 {
            PickleValue::I64(r) => r as u64,
            _ => 0,
        };
        let t = if add {
            LOGTRIGGER::RoleAdd(role)
        } else {
            LOGTRIGGER::RoleRemove(role)
        };
        match &es[i].1 {
            PickleValue::Tuple(info) => {
                proof {
                    assert(role == id_of(es@[i as int].0));
                    assert(t == log_trigger(add, id_of(es@[i as int].0)));
                }
                import_role_log(db, guild_id, t, info);
            },
            _ => {},
        }
        i += 1;
    }
    proof {
        assert(es@.take(es.len() as int) =~= es@);
    }
}


// ---------------------------------------------------------------------------
// Role and channel sets
// ---------------------------------------------------------------------------

/// The store after each role of the set got the setting.
pub open spec fn roles_flagged(v: DbView, guild_id: u64, ids: Seq<PickleValue>, f: SettingField) -> DbView
    decreases ids.len(),
{
    if ids.len() == 0 {
        v
    } else {
        let w = roles_flagged(v, guild_id, ids.drop_last(), f);
        let r = id_of(ids.last());
        w.with_roles(update_settings(ensure_setting(w.roles, guild_id, r), guild_id, r, f))
    }
}

fn import_role_flags(db: &mut Database, guild_id: u64, ids: &Vec<PickleValue>, f: SettingField)
    requires
        old(db)@.wf(),
        sql_int(guild_id),
        has_guild_row(old(db)@.guilds, guild_id),
        ids_ok(ids@),
        f == SettingField::IgnoreCooldown(true) || f == SettingField::Ping(PERMISSION::ALLOW)
            || f == SettingField::Propose(PERMISSION::ALLOW),
    ensures
        final(db)@.wf(),
        final(db)@ == roles_flagged(old(db)@, guild_id, ids@, f),
{
    let ghost v = db@;
    let mut i: usize = 0;
    proof {
        assert(ids@.take(0) =~= Seq::<PickleValue>::empty());
    }
    while i < ids.len()
        invariant
            i <= ids.len(),
            db@.wf(),
            sql_int(guild_id),
            has_guild_row(db@.guilds, guild_id),
            db@.guilds == v.guilds,
            ids_ok(ids@),
            f == SettingField::IgnoreCooldown(true) || f == SettingField::Ping(PERMISSION::ALLOW)
                || f == SettingField::Propose(PERMISSION::ALLOW),
            db@ == roles_flagged(v, guild_id, ids@.take(i as int), f),
        decreases ids.len() - i,
    {
        proof {
            assert(ids@.take(i + 1).drop_last() =~= ids@.take(i as int));
            assert(ids@.take(i + 1).last() == ids@[i as int]);
            assert(id_ok(ids@[i as int]));
        }
        let r: u64 = match ids[i] {
            PickleValue::I64(x) => x as u64,
            _ => 0,
        };
        match f {
            SettingField::IgnoreCooldown(_) => {
                let _ = db.set_role_ignore_cooldown(guild_id, r, true);
            },
            SettingField::Ping(_) => {
                let _ = db.set_role_canping(guild_id, r, PERMISSION::ALLOW);
            },
            SettingField::Propose(_) => {
                let _ = db.set_role_canpropose(guild_id, r, PERMISSION::ALLOW);
            },
        }
        i += 1;
    }
    proof {
        assert(ids@.take(ids.len() as int) =~= ids@);
    }
}

/// The store after each channel of the set got the setting.
pub open spec fn channels_flagged(v: DbView, ids: Seq<PickleValue>, f: ChannelField) -> DbView
    decreases ids.len(),
{
    if ids.len() == 0 {
        v
    } else {
        let w = channels_flagged(v, ids.drop_last(), f);
        let c = id_of(ids.last());
        w.with_channels(update_channels(ensure_channel(w.channels, c), c, f))
    }
}

fn import_channel_flags(db: &mut Database, ids: &Vec<PickleValue>, f: ChannelField)
    requires
        old(db)@.wf(),
        ids_ok(ids@),
        f == ChannelField::Mentioning(PERMISSION::DENY) || f == ChannelField::Proposing(PERMISSION::DENY),
    ensures
        final(db)@.wf(),
        final(db)@ == channels_flagged(old(db)@, ids@, f),
{
    let ghost v = db@;
    let mut i: usize = 0;
    proof {
        assert(ids@.take(0) =~= Seq::<PickleValue>::empty());
    }
    while i < ids.len()
        invariant
            i <= ids.len(),
            db@.wf(),
            ids_ok(ids@),
            f == ChannelField::Mentioning(PERMISSION::DENY) || f == ChannelField::Proposing(PERMISSION::DENY),
            db@ == channels_flagged(v, ids@.take(i as int), f),
        decreases ids.len() - i,
    {
        proof {
            assert(ids@.take(i + 1).drop_last() =~= ids@.take(i as int));
            assert(ids@.take(i + 1).last() == ids@[i as int]);
            assert(id_ok(ids@[i as int]));
        }
        let c: u64 = match ids[i] {
            PickleValue::I64(x) => x as u64,
            _ => 0,
        };
        match f {
            ChannelField::Mentioning(_) => db.set_channel_mentioning(c, PERMISSION::DENY),
            _ => db.set_channel_proposing(c, PERMISSION::DENY),
        }
        i += 1;
    }
    proof {
        assert(ids@.take(ids.len() as int) =~= ids@);
    }
}

/// A channel restriction: `mentioning` and `proposals` hold channel sets;
/// `membership` and `information` are no longer used.
pub open spec fn channel_entry_ok(e: (PickleValue, PickleValue)) -> bool {
    &&& e.0 is String
    &&& is_key(e.0, "mentioning"@) || is_key(e.0, "membership"@) || is_key(e.0, "information"@) || is_key(e.0, "proposals"@)
    &&& (is_key(e.0, "mentioning"@) || is_key(e.0, "proposals"@)) ==> e.1 is SetOf && ids_ok(e.1->SetOf_0@)
}

pub open spec fn channel_entries_ok(es: Seq<(PickleValue, PickleValue)>) -> bool {
    forall|k: int| 0 <= k < es.len() ==> channel_entry_ok(#[trigger] es[k])
}

pub open spec fn channel_entry_added(v: DbView, e: (PickleValue, PickleValue)) -> DbView {
    if is_key(e.0, "mentioning"@) {
        channels_flagged(v, e.1->SetOf_0@, ChannelField::Mentioning(PERMISSION::DENY))
    } else if is_key(e.0, "proposals"@) {
        channels_flagged(v, e.1->SetOf_0@, ChannelField::Proposing(PERMISSION::DENY))
    } else {
        v
    }
}

pub open spec fn channel_entries_added(v: DbView, es: Seq<(PickleValue, PickleValue)>) -> DbView
    decreases es.len(),
{
    if es.len() == 0 {
        v
    } else {
        channel_entry_added(channel_entries_added(v, es.drop_last()), es.last())
    }
}

fn import_channel_restrictions(db: &mut Database, es: &Vec<(PickleValue, PickleValue)>)
    requires
        old(db)@.wf(),
        channel_entries_ok(es@),
    ensures
        final(db)@.wf(),
        final(db)@ == channel_entries_added(old(db)@, es@),
        final(db)@.guilds == old(db)@.guilds,
        final(db)@.responses == old(db)@.responses,
        final(db)@.conditions == old(db)@.conditions,
{
    let ghost v = db@;
    let mut i: usize = 0;
    proof {
        assert(es@.take(0) =~= Seq::<(PickleValue, PickleValue)>::empty());
        lemma_keys_distinct();
    }
    while i < es.len()
        invariant
            i <= es.len(),
            db@.wf(),
            channel_entries_ok(es@),
            db@ == channel_entries_added(v, es@.take(i as int)),
            db@.guilds == v.guilds,
            db@.responses == v.responses,
            db@.conditions == v.conditions,
        decreases es.len() - i,
    {
        proof {
            assert(es@.take(i + 1).drop_last() =~= es@.take(i as int));
            assert(es@.take(i + 1).last() == es@[i as int]);
            assert(channel_entry_ok(es@[i as int]));
            lemma_keys_distinct();
        }
        let ghost before = db@;
        if let PickleValue::String(k) = &es[i].0 {
            if str_eq(k.as_str(), "mentioning") {
                if let PickleValue::SetOf(ids) = &es[i].1 {
                    import_channel_flags(db, ids, ChannelField::Mentioning(PERMISSION::DENY));
                }
            } else if str_eq(k.as_str(), "proposals") {
                if let PickleValue::SetOf(ids) = &es[i].1 {
                    import_channel_flags(db, ids, ChannelField::Proposing(PERMISSION::DENY));
                }
            }
        }
        proof {
            lemma_channels_flagged_keeps(before, es@[i as int]);
        }
        i += 1;
    }
    proof {
        assert(es@.take(es.len() as int) =~= es@);
    }
}

proof fn lemma_channels_flagged_keeps(v: DbView, e: (PickleValue, PickleValue))
    requires
        channel_entry_ok(e),
    ensures
        channel_entry_added(v, e).guilds == v.guilds,
        channel_entry_added(v, e).responses == v.responses,
        channel_entry_added(v, e).conditions == v.conditions,
{
    if is_key(e.0, "mentioning"@) || is_key(e.0, "proposals"@) {
        let f = if is_key(e.0, "mentioning"@) {
            ChannelField::Mentioning(PERMISSION::DENY)
        } else {
            ChannelField::Proposing(PERMISSION::DENY)
        };
        lemma_channels_flagged_tables(v, e.1->SetOf_0@, f);
    }
}

proof fn lemma_channels_flagged_tables(v: DbView, ids: Seq<PickleValue>, f: ChannelField)
    ensures
        channels_flagged(v, ids, f).guilds == v.guilds,
        channels_flagged(v, ids, f).responses == v.responses,
        channels_flagged(v, ids, f).conditions == v.conditions,
    decreases ids.len(),
{
    if ids.len() > 0 {
        lemma_channels_flagged_tables(v, ids.drop_last(), f);
    }
}

pub(crate) proof fn lemma_roles_flagged_tables(v: DbView, guild_id: u64, ids: Seq<PickleValue>, f: SettingField)
    ensures
        roles_flagged(v, guild_id, ids, f).guilds == v.guilds,
        roles_flagged(v, guild_id, ids, f).responses == v.responses,
        roles_flagged(v, guild_id, ids, f).conditions == v.conditions,
    decreases ids.len(),
{
    if ids.len() > 0 {
        lemma_roles_flagged_tables(v, guild_id, ids.drop_last(), f);
    }
}

pub(crate) proof fn lemma_keys_distinct()
    ensures
        "roleLogAdd"@ != "roleLogRemove"@,
        "roleLogAdd"@ != "fastping"@,
        "roleLogAdd"@ != "restrictping"@,
        "roleLogAdd"@ != "restrictproposal"@,
        "roleLogAdd"@ != "channelRestrictions"@,
        "roleLogRemove"@ != "fastping"@,
        "roleLogRemove"@ != "restrictping"@,
        "roleLogRemove"@ != "restrictproposal"@,
        "roleLogRemove"@ != "channelRestrictions"@,
        "fastping"@ != "restrictping"@,
        "fastping"@ != "restrictproposal"@,
        "fastping"@ != "channelRestrictions"@,
        "restrictping"@ != "restrictproposal"@,
        "restrictping"@ != "channelRestrictions"@,
        "restrictproposal"@ != "channelRestrictions"@,
        "mentioning"@ != "membership"@,
        "mentioning"@ != "information"@,
        "mentioning"@ != "proposals"@,
        "membership"@ != "information"@,
        "membership"@ != "proposals"@,
        "information"@ != "proposals"@,
{
    reveal_strlit("roleLogAdd");
    reveal_strlit("roleLogRemove");
    reveal_strlit("fastping");
    reveal_strlit("restrictping");
    reveal_strlit("restrictproposal");
    reveal_strlit("channelRestrictions");
    reveal_strlit("mentioning");
    reveal_strlit("membership");
    reveal_strlit("information");
    reveal_strlit("proposals");
    assert("roleLogAdd"@.len() == 10);
    assert("roleLogRemove"@.len() == 13);
    assert("fastping"@.len() == 8);
    assert("restrictping"@.len() == 12);
    assert("restrictproposal"@.len() == 16);
    assert("channelRestrictions"@.len() == 19);
    assert("mentioning"@.len() == 10);
    assert("membership"@.len() == 10);
    assert("information"@.len() == 11);
    assert("proposals"@.len() == 9);
    assert("roleLogAdd"@[0] != "fastping"@[0]);
    assert("mentioning"@[2] != "membership"@[2]);
}


// ---------------------------------------------------------------------------
// The whole file
// ---------------------------------------------------------------------------

pub open spec fn role_log_key(k: PickleValue) -> bool {
    is_key(k, "roleLogAdd"@) || is_key(k, "roleLogRemove"@)
}

pub open spec fn role_set_key(k: PickleValue) -> bool {
    is_key(k, "fastping"@) || is_key(k, "restrictping"@) || is_key(k, "restrictproposal"@)
}

/// An entry of the guild's data that the import can read. Entries under other
/// keys, or under a key that is not a string, are passed over.
pub open spec fn entry_ok(e: (PickleValue, PickleValue)) -> bool {
    if role_log_key(e.0) {
        e.1 is Dict && role_logs_ok(e.1->Dict_0@)
    } else if role_set_key(e.0) {
        e.1 is SetOf && ids_ok(e.1->SetOf_0@)
    } else if is_key(e.0, "channelRestrictions"@) {
        e.1 is Dict && channel_entries_ok(e.1->Dict_0@)
    } else {
        true
    }
}

pub open spec fn entries_ok(es: Seq<(PickleValue, PickleValue)>) -> bool {
    forall|k: int| 0 <= k < es.len() ==> entry_ok(#[trigger] es[k])
}

/// The store after one entry of guild `g` was imported:
/// - `roleLogAdd` / `roleLogRemove`: an automatic response per role log;
/// - `fastping`: the roles skip the cooldown;
/// - `restrictping` / `restrictproposal`: the guild no longer lets everyone
///   ping / propose, and the listed roles may;
/// - `channelRestrictions`: the listed channels may not ping / propose.
pub open spec fn entry_added(v: DbView, g: u64, e: (PickleValue, PickleValue)) -> DbView {
    if is_key(e.0, "roleLogAdd"@) {
        role_logs_added(v, g, true, e.1->Dict_0@)
    } else if is_key(e.0, "roleLogRemove"@) {
        role_logs_added(v, g, false, e.1->Dict_0@)
    } else if is_key(e.0, "fastping"@) {
        roles_flagged(v, g, e.1->SetOf_0@, SettingField::IgnoreCooldown(true))
    } else if is_key(e.0, "restrictping"@) {
        roles_flagged(
            v.with_guilds(update_guilds(v.guilds, g, GuildField::CanPing(false))),
            g,
            e.1->SetOf_0@,
            SettingField::Ping(PERMISSION::ALLOW),
        )
    } else if is_key(e.0, "restrictproposal"@) {
        roles_flagged(
            v.with_guilds(update_guilds(v.guilds, g, GuildField::CanPropose(false))),
            g,
            e.1->SetOf_0@,
            SettingField::Propose(PERMISSION::ALLOW),
        )
    } else if is_key(e.0, "channelRestrictions"@) {
        channel_entries_added(v, e.1->Dict_0@)
    } else {
        v
    }
}

pub open spec fn entries_added(v: DbView, g: u64, es: Seq<(PickleValue, PickleValue)>) -> DbView
    decreases es.len(),
{
    if es.len() == 0 {
        v
    } else {
        entry_added(entries_added(v, g, es.drop_last()), g, es.last())
    }
}

/// How many responses and conditions an entry brings.
pub open spec fn entry_responses(e: (PickleValue, PickleValue)) -> nat {
    if role_log_key(e.0) {
        (e.1->Dict_0@).len()
    } else {
        0
    }
}

pub open spec fn entry_conditions(e: (PickleValue, PickleValue)) -> nat {
    if role_log_key(e.0) {
        log_conditions(e.1->Dict_0@)
    } else {
        0
    }
}

pub open spec fn entries_responses(es: Seq<(PickleValue, PickleValue)>) -> nat
    decreases es.len(),
{
    if es.len() == 0 {
        0
    } else {
        entries_responses(es.drop_last()) + entry_responses(es.last())
    }
}

pub open spec fn entries_conditions(es: Seq<(PickleValue, PickleValue)>) -> nat
    decreases es.len(),
{
    if es.len() == 0 {
        0
    } else {
        entries_conditions(es.drop_last()) + entry_conditions(es.last())
    }
}

/// The guild's data: the first of a pair whose second holds the lists (which
/// the import passes over). Any other shape holds no data.
pub open spec fn pickle_entries(x: PickleValue) -> Option<Seq<(PickleValue, PickleValue)>> {
    match x {
        PickleValue::Tuple(base) => if base@.len() == 2 && base@[0] is Dict {
            Some(base@[0]->Dict_0@)
        } else {
            None
        },
        _ => None,
    }
}

/// The store with guild `g` registered.
pub open spec fn guild_added(v: DbView, g: u64) -> DbView {
    if has_guild_row(v.guilds, g) {
        v
    } else {
        v.with_guilds(v.guilds.push(default_guild(g)))
    }
}

/// What the import needs: a guild id the store can hold, entries it can read,
/// and room for the keys of the new responses and conditions.
pub open spec fn import_ok(v: DbView, g: u64, x: PickleValue) -> bool {
    &&& sql_int(g)
    &&& match pickle_entries(x) {
        None => true,
        Some(es) => {
            &&& entries_ok(es)
            &&& last_response_id(v.responses) + entries_responses(es) <= I64_MAX
            &&& last_condition_id(v.conditions) + entries_conditions(es) <= I64_MAX
        },
    }
}

/// The store after importing the saved data `x` for guild `g`.
pub open spec fn imported(v: DbView, g: u64, x: PickleValue) -> DbView {
    match pickle_entries(x) {
        None => guild_added(v, g),
        Some(es) => entries_added(guild_added(v, g), g, es),
    }
}

proof fn lemma_update_keeps_guild(gs: Seq<GuildRow>, id: u64, f: GuildField, x: u64)
    requires
        has_guild_row(gs, x),
    ensures
        has_guild_row(update_guilds(gs, id, f), x),
{
    let j = choose|j: int| 0 <= j < gs.len() && #[trigger] gs[j].id == x;
    assert(update_guilds(gs, id, f)[j].id == x);
}

proof fn lemma_entries_prefix(es: Seq<(PickleValue, PickleValue)>, i: int)
    requires
        0 <= i <= es.len(),
    ensures
        entries_responses(es.take(i)) <= entries_responses(es),
        entries_conditions(es.take(i)) <= entries_conditions(es),
    decreases es.len() - i,
{
    if i < es.len() {
        lemma_entries_prefix(es, i + 1);
        assert(es.take(i + 1).drop_last() =~= es.take(i));
    } else {
        assert(es.take(i) =~= es);
    }
}

fn import_entry(db: &mut Database, g: u64, e: &(PickleValue, PickleValue))
    requires
        old(db)@.wf(),
        sql_int(g),
        has_guild_row(old(db)@.guilds, g),
        entry_ok(*e),
        last_response_id(old(db)@.responses) + entry_responses(*e) <= I64_MAX,
        last_condition_id(old(db)@.conditions) + entry_conditions(*e) <= I64_MAX,
    ensures
        final(db)@.wf(),
        final(db)@ == entry_added(old(db)@, g, *e),
        has_guild_row(final(db)@.guilds, g),
        last_response_id(final(db)@.responses) == last_response_id(old(db)@.responses) + entry_responses(*e),
        last_condition_id(final(db)@.conditions) == last_condition_id(old(db)@.conditions) + entry_conditions(*e),
{
    let ghost v = db@;
    proof {
        lemma_keys_distinct();
    }
    let key: &String = match &e.0 {
        PickleValue::String(k) => k,
        _ => {
            return;
        },
    };
    let k = key.as_str();
    if str_eq(k, "roleLogAdd") || str_eq(k, "roleLogRemove") {
        let add = str_eq(k, "roleLogAdd");
        if let PickleValue::Dict(es) = &e.1 {
            import_role_logs(db, g, add, es);
        }
    } else if str_eq(k, "fastping") {
        if let PickleValue::SetOf(ids) = &e.1 {
            import_role_flags(db, g, ids, SettingField::IgnoreCooldown(true));
            proof {
                lemma_roles_flagged_tables(v, g, ids@, SettingField::IgnoreCooldown(true));
            }
        }
    } else if str_eq(k, "restrictping") {
        let _ = db.set_guild_canping(g, false);
        proof {
            lemma_update_keeps_guild(v.guilds, g, GuildField::CanPing(false), g);
        }
        let ghost w = db@;
        if let PickleValue::SetOf(ids) = &e.1 {
            import_role_flags(db, g, ids, SettingField::Ping(PERMISSION::ALLOW));
            proof {
                lemma_roles_flagged_tables(w, g, ids@, SettingField::Ping(PERMISSION::ALLOW));
            }
        }
    } else if str_eq(k, "restrictproposal") {
        db.set_guild_canpropose(g, false);
        proof {
            lemma_update_keeps_guild(v.guilds, g, GuildField::CanPropose(false), g);
        }
        let ghost w = db@;
        if let PickleValue::SetOf(ids) = &e.1 {
            import_role_flags(db, g, ids, SettingField::Propose(PERMISSION::ALLOW));
            proof {
                lemma_roles_flagged_tables(w, g, ids@, SettingField::Propose(PERMISSION::ALLOW));
            }
        }
    } else if str_eq(k, "channelRestrictions") {
        if let PickleValue::Dict(es) = &e.1 {
            import_channel_restrictions(db, es);
        }
    }
}

/// Imports the saved data of guild `gid` (a pickle file): registers the
/// guild, then reads its data entry by entry (see `entry_added`).
pub fn import_pickled(data: &PickleValue, gid: u64, database: &mut Database)
    requires
        old(database)@.wf(),
        import_ok(old(database)@, gid, *data),
    ensures
        final(database)@.wf(),
        final(database)@ == imported(old(database)@, gid, *data),
        has_guild_row(final(database)@.guilds, gid),
{
    let _ = database.add_guild(gid);
    let ghost v = database@;
    proof {
        if !has_guild_row(old(database)@.guilds, gid) {
            assert(v.guilds[v.guilds.len() - 1].id == gid);
        }
    }
    let es: &Vec<(PickleValue, PickleValue)> = match data {
        PickleValue::Tuple(base) => {
            if base.len() != 2 {
                return;
            }
            match &base[0] {
                PickleValue::Dict(es) => es,
                _ => {
                    return;
                },
            }
        },
        _ => {
            return;
        },
    };
    assert(pickle_entries(*data) == Some(es@));
    let mut i: usize = 0;
    proof {
        assert(es@.take(0) =~= Seq::<(PickleValue, PickleValue)>::empty());
        assert(has_guild_row(v.guilds, gid)) by {
            if !has_guild_row(old(database)@.guilds, gid) {
                assert(v.guilds[v.guilds.len() - 1].id == gid);
            }
        }
    }
    while i < es.len()
        invariant
            i <= es.len(),
            database@.wf(),
            sql_int(gid),
            entries_ok(es@),
            has_guild_row(database@.guilds, gid),
            last_response_id(v.responses) + entries_responses(es@) <= I64_MAX,
            last_condition_id(v.conditions) + entries_conditions(es@) <= I64_MAX,
            database@ == entries_added(v, gid, es@.take(i as int)),
            last_response_id(database@.responses) == last_response_id(v.responses) + entries_responses(es@.take(i as int)),
            last_condition_id(database@.conditions) == last_condition_id(v.conditions) + entries_conditions(es@.take(i as int)),
        decreases es.len() - i,
    {
        proof {
            assert(es@.take(i + 1).drop_last() =~= es@.take(i as int));
            assert(es@.take(i + 1).last() == es@[i as int]);
            assert(entry_ok(es@[i as int]));
            lemma_entries_prefix(es@, i + 1);
        }
        import_entry(database, gid, &es[i]);
        i += 1;
    }
    proof {
        assert(es@.take(es.len() as int) =~= es@);
    }
}


// ---------------------------------------------------------------------------
// Checking the saved data before the import
// ---------------------------------------------------------------------------

fn ids_valid(xs: &Vec<PickleValue>) -> (r: bool)
    ensures
        r == ids_ok(xs@),
{
    let mut i: usize = 0;
    while i < xs.len()
        invariant
            i <= xs.len(),
            forall|k: int| 0 <= k < i ==> id_ok(#[trigger] xs@[k]),
        decreases xs.len() - i,
    {
        match xs[i] {
            PickleValue::I64(x) => {
                if x < 0 {
                    return false;
                }
            },
            _ => {
                return false;
            },
        }
        i += 1;
    }
    true
}

/// How many conditions the restrictions bring, if they are well formed and
/// that number is at most `room`.
fn restrictions_count(rs: &Vec<(PickleValue, PickleValue)>, room: u64) -> (r: Option<u64>)
    ensures
        r matches Some(n) ==> restrictions_ok(rs@) && n == restriction_items(rs@).len() && n <= room,
        r is None ==> !restrictions_ok(rs@) || restriction_items(rs@).len() > room,
{
    let mut n: u64 = 0;
    let mut i: usize = 0;
    proof {
        assert(rs@.take(0) =~= Seq::<(PickleValue, PickleValue)>::empty());
    }
    while i < rs.len()
        invariant
            i <= rs.len(),
            forall|k: int| 0 <= k < i ==> restriction_ok(#[trigger] rs@[k]),
            n == restriction_items(rs@.take(i as int)).len(),
            n <= room,
        decreases rs.len() - i,
    {
        proof {
            assert(rs@.take(i + 1).drop_last() =~= rs@.take(i as int));
            assert(rs@.take(i + 1).last() == rs@[i as int]);
        }
        let ok_key = match &rs[i].0 {
            PickleValue::String(_) => true,
            _ => false,
        };
        if !ok_key {
            return None;
        }
        let ids = match &rs[i].1 {
            PickleValue::SetOf(ids) => ids,
            _ => {
                return None;
            },
        };
        if !ids_valid(ids) {
            return None;
        }
        if ids.len() as u64 > room - n {
            proof {
                assert(restriction_ok(rs@[i as int]));
                lemma_items_prefix(rs@, i + 1);
            }
            return None;
        }
        n = n + ids.len() as u64;
        i += 1;
    }
    proof {
        assert(rs@.take(rs.len() as int) =~= rs@);
    }
    Some(n)
}

/// How many conditions the role logs bring, if they are well formed and that
/// number is at most `room`.
fn role_logs_count(es: &Vec<(PickleValue, PickleValue)>, room: u64) -> (r: Option<u64>)
    ensures
        r matches Some(n) ==> role_logs_ok(es@) && n == log_conditions(es@) && n <= room,
        r is None ==> !role_logs_ok(es@) || log_conditions(es@) > room,
{
    let mut n: u64 = 0;
    let mut i: usize = 0;
    proof {
        assert(es@.take(0) =~= Seq::<(PickleValue, PickleValue)>::empty());
    }
    while i < es.len()
        invariant
            i <= es.len(),
            forall|k: int| 0 <= k < i ==> role_log_ok(#[trigger] es@[k]),
            n == log_conditions(es@.take(i as int)),
            n <= room,
        decreases es.len() - i,
    {
        proof {
            assert(es@.take(i + 1).drop_last() =~= es@.take(i as int));
            assert(es@.take(i + 1).last() == es@[i as int]);
        }
        match es[i].0 {
            PickleValue::I64(x) => {
                if x < 0 {
                    return None;
                }
            },
            _ => {
                return None;
            },
        }
        let info = match &es[i].1 {
            PickleValue::Tuple(info) => info,
            _ => {
                return None;
            },
        };
        if info.len() != 3 {
            return None;
        }
        match info[0] {
            PickleValue::I64(x) => {
                if x < 0 {
                    return None;
                }
            },
            _ => {
                return None;
            },
        }
        match &info[1] {
            PickleValue::String(_) => {},
            _ => {
                return None;
            },
        }
        let rs = match &info[2] {
            PickleValue::Dict(rs) => rs,
            _ => {
                return None;
            },
        };
        match restrictions_count(rs, room - n) {
            Some(c) => {
                n = n + c;
            },
            None => {
                proof {
                    if role_logs_ok(es@) {
                        assert(role_log_ok(es@[i as int]));
                        lemma_log_conditions_prefix(es@, i + 1);
                    }
                }
                return None;
            },
        }
        i += 1;
    }
    proof {
        assert(es@.take(es.len() as int) =~= es@);
    }
    Some(n)
}

fn channel_entries_valid(es: &Vec<(PickleValue, PickleValue)>) -> (r: bool)
    ensures
        r == channel_entries_ok(es@),
{
    proof {
        lemma_keys_distinct();
    }
    let mut i: usize = 0;
    while i < es.len()
        invariant
            i <= es.len(),
            forall|k: int| 0 <= k < i ==> channel_entry_ok(#[trigger] es@[k]),
        decreases es.len() - i,
    {
        let k = match &es[i].0 {
            PickleValue::String(k) => k.as_str(),
            _ => {
                return false;
            },
        };
        if str_eq(k, "mentioning") || str_eq(k, "proposals") {
            match &es[i].1 {
                PickleValue::SetOf(ids) => {
                    if !ids_valid(ids) {
                        return false;
                    }
                },
                _ => {
                    return false;
                },
            }
        } else if !(str_eq(k, "membership") || str_eq(k, "information")) {
            return false;
        }
        i += 1;
    }
    true
}

/// How many responses and conditions the entry brings, if it is well formed
/// and they fit in the room left.
fn entry_count(e: &(PickleValue, PickleValue), room_r: u64, room_c: u64) -> (r: Option<(u64, u64)>)
    ensures
        r matches Some(p) ==> entry_ok(*e) && p.0 == entry_responses(*e) && p.1 == entry_conditions(*e)
            && p.0 <= room_r && p.1 <= room_c,
        r is None ==> !entry_ok(*e) || entry_responses(*e) > room_r || entry_conditions(*e) > room_c,
{
    proof {
        lemma_keys_distinct();
    }
    let k = match &e.0 {
        PickleValue::String(k) => k.as_str(),
        _ => {
            return Some((0, 0));
        },
    };
    if str_eq(k, "roleLogAdd") || str_eq(k, "roleLogRemove") {
        match &e.1 {
            PickleValue::Dict(es) => {
                if es.len() as u64 > room_r {
                    return None;
                }
                match role_logs_count(es, room_c) {
                    Some(c) => Some((es.len() as u64, c)),
                    None => None,
                }
            },
            _ => None,
        }
    } else if str_eq(k, "fastping") || str_eq(k, "restrictping") || str_eq(k, "restrictproposal") {
        match &e.1 {
            PickleValue::SetOf(ids) => if ids_valid(ids) {
                Some((0, 0))
            } else {
                None
            },
            _ => None,
        }
    } else if str_eq(k, "channelRestrictions") {
        match &e.1 {
            PickleValue::Dict(es) => if channel_entries_valid(es) {
                Some((0, 0))
            } else {
                None
            },
            _ => None,
        }
    } else {
        Some((0, 0))
    }
}

/// Whether `import_pickled` can take the saved data for guild `gid`: the
/// checks the import would otherwise fail on.
pub fn import_valid(database: &Database, gid: u64, data: &PickleValue) -> (r: bool)
    requires
        database@.wf(),
    ensures
        r == import_ok(database@, gid, *data),
{
    if gid > I64_MAX {
        return false;
    }
    let es: &Vec<(PickleValue, PickleValue)> = match data {
        PickleValue::Tuple(base) => {
            if base.len() != 2 {
                return true;
            }
            match &base[0] {
                PickleValue::Dict(es) => es,
                _ => {
                    return true;
                },
            }
        },
        _ => {
            return true;
        },
    };
    assert(pickle_entries(*data) == Some(es@));
    let nr = database.responses.len();
    let mut r: u64 = if nr == 0 {
        0
    } else {
        database.responses[nr - 1].id
    };
    let nc = database.conditions.len();
    let mut c: u64 = if nc == 0 {
        0
    } else {
        database.conditions[nc - 1].id
    };
    proof {
        let v = database@;
        if nr > 0 {
            assert(v.responses.last() == database.responses@[nr - 1]@);
            assert(response_row_ok(v.responses[nr - 1]));
        }
        if nc > 0 {
            assert(condition_row_ok(v.conditions[nc - 1]));
        }
        assert(es@.take(0) =~= Seq::<(PickleValue, PickleValue)>::empty());
    }
    let mut i: usize = 0;
    while i < es.len()
        invariant
            i <= es.len(),
            forall|k: int| 0 <= k < i ==> entry_ok(#[trigger] es@[k]),
            pickle_entries(*data) == Some(es@),
            sql_int(gid),
            r == last_response_id(database@.responses) + entries_responses(es@.take(i as int)),
            c == last_condition_id(database@.conditions) + entries_conditions(es@.take(i as int)),
            r <= I64_MAX,
            c <= I64_MAX,
        decreases es.len() - i,
    {
        proof {
            assert(es@.take(i + 1).drop_last() =~= es@.take(i as int));
            assert(es@.take(i + 1).last() == es@[i as int]);
        }
        match entry_count(&es[i], I64_MAX - r, I64_MAX - c) {
            Some((a, b)) => {
                r = r + a;
                c = c + b;
            },
            None => {
                proof {
                    lemma_entries_prefix(es@, i + 1);
                    let t = es@.take(i + 1);
                    assert(entries_responses(t) == entries_responses(es@.take(i as int)) + entry_responses(es@[i as int]));
                    assert(entries_conditions(t) == entries_conditions(es@.take(i as int)) + entry_conditions(es@[i as int]));
                    if entries_ok(es@) {
                        assert(entry_ok(es@[i as int]));
                    }
                }
                return false;
            },
        }
        i += 1;
    }
    proof {
        assert(es@.take(es.len() as int) =~= es@);
    }
    true
}

// ---------------------------------------------------------------------------
// Reading the saved file's bytes
// ---------------------------------------------------------------------------

#[verifier::external_type_specification]
#[verifier::external_body]
pub struct ExPickledValue(Value);

#[verifier::external_type_specification]
#[verifier::external_body]
pub struct ExPickledKey(HashableValue);

/// The value a pickle file decodes to, or `None` when the bytes are not a
/// pickle the decoder reads.
pub uninterp spec fn pickle_of(bytes: Seq<u8>) -> Option<PickleValue>;

/// `serde_pickle::value_from_slice` with the default options, its value tree
/// turned into a `PickleValue` (see `pickle_value`). The decoder reads the bytes
/// alone, and its sets and dictionaries are ordered trees, so the result is a
/// function of the bytes; an error gives `None`. Not stated: bytes nested deeply
/// enough to exhaust the stack stop the decoder, whose limit is the machine's.
#[verifier::external_body]
fn parse_pickle(bytes: &[u8]) -> (res: Option<PickleValue>)
    ensures
        res == pickle_of(bytes@),
{
    match serde_pickle::value_from_slice(bytes, serde_pickle::DeOptions::new()) {
        Ok(v) => Some(pickle_value(v)),
        Err(_) => None,
    }
}

/// Turns a decoded `serde_pickle::Value` into a `PickleValue`, variant for
/// variant; values the import never reads (numbers beyond `i64`, floats,
/// bytes, frozen sets, `None`) become `Other`.
#[verifier::external_body]
fn pickle_value(v: Value) -> PickleValue {
    match v {
        Value::Bool(b) => PickleValue::Bool(b),
        Value::I64(i) => PickleValue::I64(i),
        Value::String(s) => PickleValue::String(s),
        Value::List(l) => PickleValue::List(l.into_iter().map(pickle_value).collect()),
        Value::Tuple(t) => PickleValue::Tuple(t.into_iter().map(pickle_value).collect()),
        Value::Set(s) => PickleValue::SetOf(s.into_iter().map(pickle_key).collect()),
        Value::Dict(d) => PickleValue::Dict(d.into_iter().map(|(k, v)| (pickle_key(k), pickle_value(v))).collect()),
        _ => PickleValue::Other,
    }
}

/// Turns a decoded `serde_pickle::HashableValue` (a set element or a
/// dictionary key) into a `PickleValue`, as `pickle_value` does.
#[verifier::external_body]
fn pickle_key(v: HashableValue) -> PickleValue {
    match v {
        HashableValue::Bool(b) => PickleValue::Bool(b),
        HashableValue::I64(i) => PickleValue::I64(i),
        HashableValue::String(s) => PickleValue::String(s),
        HashableValue::Tuple(t) => PickleValue::Tuple(t.into_iter().map(pickle_key).collect()),
        _ => PickleValue::Other,
    }
}

/// Imports a saved pickle file of guild `gid` from its bytes: decodes them and,
/// when the data is what the import reads (`import_ok`), imports it. Returns
/// whether it did; otherwise the store is unchanged.
pub fn import_pickle_bytes(bytes: &[u8], gid: u64, database: &mut Database) -> (res: bool)
    requires
        old(database)@.wf(),
    ensures
        final(database)@.wf(),
        match pickle_of(bytes@) {
            Some(x) => {
                &&& res == import_ok(old(database)@, gid, x)
                &&& res ==> final(database)@ == imported(old(database)@, gid, x)
                &&& !res ==> final(database)@ == old(database)@
            },
            None => !res && final(database)@ == old(database)@,
        },
{
    let data = match parse_pickle(bytes) {
        Some(d) => d,
        None => {
            return false;
        },
    };
    if !import_valid(database, gid, &data) {
        return false;
    }
    import_pickled(&data, gid, database);
    true
}

} // verus!
