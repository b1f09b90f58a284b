use vstd::prelude::*;

use crate::database::{ChannelRow, ConditionRow, DbView, I64_MAX, SettingRow};
use crate::db_settings::{
    ChannelField, SettingField, channel_of, channel_present, channel_with, ensure_channel, ensure_setting, first_channel,
    first_setting, has_setting, setting_of, setting_present, setting_with, update_channels, update_settings,
};
use crate::laws::{law_channel_read_back, law_setting_read_back, lemma_first_channel_exists, lemma_first_setting_exists};
use crate::pickle_import::{
    PickleValue, add_conditions, channels_flagged, id_of, last_response_id, log_trigger, restriction_items, role_log_ok,
    role_logs_added, role_logs_ok, roles_flagged, text_of, entry_added, is_key, role_set_key,
};
use crate::database::{GuildField, guild_of, guild_with, has_guild_row, update_guilds};
use crate::structures::PERMISSION;
use crate::db_responses::new_response;

verus! {

// ---------------------------------------------------------------------------
// What importing saved data gives: role and channel flags
// ---------------------------------------------------------------------------

/// The settings row a role or user has in the guild, when one row is there.
pub open spec fn setting_kept(rows: Seq<SettingRow>, guild_id: u64, key: u64) -> bool {
    setting_present(rows, key) ==> has_setting(rows, guild_id, key)
}

/// Writing one column for `key` leaves the row another id reads untouched.
proof fn lemma_setting_other_key(rows: Seq<SettingRow>, guild_id: u64, key: u64, f: SettingField, x: u64)
    requires
        x != key,
        has_setting(rows, guild_id, x),
    ensures
        has_setting(update_settings(ensure_setting(rows, guild_id, key), guild_id, key, f), guild_id, x),
        setting_of(update_settings(ensure_setting(rows, guild_id, key), guild_id, key, f), guild_id, x)
            == setting_of(rows, guild_id, x),
{
    let u = update_settings(ensure_setting(rows, guild_id, key), guild_id, key, f);
    let q = choose|q: int| 0 <= q < rows.len() && (#[trigger] rows[q]).subject_id == x && rows[q].guild_id == guild_id;
    lemma_first_setting_exists(rows, guild_id, x, q);
    let i = choose|i: int| first_setting(rows, guild_id, x, i);
    crate::db_settings::lemma_first_setting(rows, guild_id, x, i);
    assert(u[i] == rows[i]);
    assert(first_setting(u, guild_id, x, i)) by {
        assert forall|j: int| 0 <= j < i implies !((#[trigger] u[j]).subject_id == x && u[j].guild_id == guild_id) by {
            assert(!(rows[j].subject_id == x && rows[j].guild_id == guild_id));
        }
    }
    crate::db_settings::lemma_first_setting(u, guild_id, x, i);
}

/// One more write keeps every id whose row is the guild's in that state.
proof fn lemma_setting_kept_step(rows: Seq<SettingRow>, guild_id: u64, key: u64, f: SettingField, x: u64)
    requires
        setting_kept(rows, guild_id, x),
    ensures
        setting_kept(update_settings(ensure_setting(rows, guild_id, key), guild_id, key, f), guild_id, x),
{
    let e = ensure_setting(rows, guild_id, key);
    let u = update_settings(e, guild_id, key, f);
    if setting_present(u, x) {
        let q = choose|q: int| 0 <= q < u.len() && (#[trigger] u[q]).subject_id == x;
        if q < rows.len() {
            assert(e[q] == rows[q]);
            assert(rows[q].subject_id == x);
            assert(setting_present(rows, x));
            let p = choose|p: int| 0 <= p < rows.len() && (#[trigger] rows[p]).subject_id == x && rows[p].guild_id == guild_id;
            assert(u[p].subject_id == x && u[p].guild_id == guild_id);
        } else {
            assert(u[q].guild_id == guild_id);
        }
    }
}

/// Flagging a set of roles keeps every id whose row is the guild's.
proof fn lemma_roles_flagged_kept(v: DbView, guild_id: u64, ids: Seq<PickleValue>, f: SettingField, x: u64)
    requires
        setting_kept(v.roles, guild_id, x),
    ensures
        setting_kept(roles_flagged(v, guild_id, ids, f).roles, guild_id, x),
    decreases ids.len(),
{
    if ids.len() > 0 {
        lemma_roles_flagged_kept(v, guild_id, ids.drop_last(), f, x);
        let w = roles_flagged(v, guild_id, ids.drop_last(), f);
        lemma_setting_kept_step(w.roles, guild_id, id_of(ids.last()), f, x);
    }
}

/// A set of roles read from saved data (`fastping`, `restrictping`,
/// `restrictproposal`) gets its column written: afterwards each listed role has
/// a row in the guild, and that row holds the value written (the role skips the
/// cooldown, or may ping, or may propose). This holds of each listed role that
/// has no row yet, or has its row in this guild.
pub proof fn law_imported_roles_flagged(v: DbView, guild_id: u64, ids: Seq<PickleValue>, f: SettingField)
    requires
        forall|k: int| 0 <= k < ids.len() ==> setting_kept(v.roles, guild_id, id_of(#[trigger] ids[k])),
    ensures
        forall|k: int| 0 <= k < ids.len() ==> {
            let rows = roles_flagged(v, guild_id, ids, f).roles;
            let r = id_of(#[trigger] ids[k]);
            &&& has_setting(rows, guild_id, r)
            &&& setting_with(setting_of(rows, guild_id, r), f) == setting_of(rows, guild_id, r)
        },
    decreases ids.len(),
{
    if ids.len() > 0 {
        let d = ids.drop_last();
        assert forall|k: int| 0 <= k < d.len() implies setting_kept(v.roles, guild_id, id_of(#[trigger] d[k])) by {
            assert(d[k] == ids[k]);
        }
        law_imported_roles_flagged(v, guild_id, d, f);
        let w = roles_flagged(v, guild_id, d, f).roles;
        let r = id_of(ids.last());
        let rows = roles_flagged(v, guild_id, ids, f).roles;
        assert(rows == update_settings(ensure_setting(w, guild_id, r), guild_id, r, f));
        assert(setting_kept(v.roles, guild_id, r)) by {
            assert(ids[ids.len() - 1] == ids.last());
        }
        lemma_roles_flagged_kept(v, guild_id, d, f, r);
        law_setting_read_back(w, guild_id, r, f);
        let e = ensure_setting(w, guild_id, r);
        let q = if setting_present(w, r) {
            choose|q: int| 0 <= q < w.len() && (#[trigger] w[q]).subject_id == r && w[q].guild_id == guild_id
        } else {
            w.len() as int
        };
        assert(e[q].subject_id == r && e[q].guild_id == guild_id);
        assert(rows[q].subject_id == r && rows[q].guild_id == guild_id);
        assert(has_setting(rows, guild_id, r));
        assert forall|k: int| 0 <= k < ids.len() implies {
            let x = id_of(#[trigger] ids[k]);
            &&& has_setting(rows, guild_id, x)
            &&& setting_with(setting_of(rows, guild_id, x), f) == setting_of(rows, guild_id, x)
        } by {
            let x = id_of(ids[k]);
            if x != r {
                assert(k < d.len());
                assert(d[k] == ids[k]);
                lemma_setting_other_key(w, guild_id, r, f, x);
            }
        }
    }
}

/// Writing one column for channel `c` leaves the row of another channel untouched.
proof fn lemma_channel_other_key(rows: Seq<ChannelRow>, c: u64, f: ChannelField, x: u64)
    requires
        x != c,
        channel_present(rows, x),
    ensures
        channel_present(update_channels(ensure_channel(rows, c), c, f), x),
        channel_of(update_channels(ensure_channel(rows, c), c, f), x) == channel_of(rows, x),
{
    let u = update_channels(ensure_channel(rows, c), c, f);
    let q = choose|q: int| 0 <= q < rows.len() && (#[trigger] rows[q]).channel_id == x;
    lemma_first_channel_exists(rows, x, q);
    let i = choose|i: int| first_channel(rows, x, i);
    crate::db_settings::lemma_first_channel(rows, x, i);
    assert(u[i] == rows[i]);
    assert(first_channel(u, x, i)) by {
        assert forall|j: int| 0 <= j < i implies (#[trigger] u[j]).channel_id != x by {
            assert(rows[j].channel_id != x);
        }
    }
    crate::db_settings::lemma_first_channel(u, x, i);
}

/// A set of channels read from saved data (`channelRestrictions`) gets its
/// column written: afterwards each listed channel has a row, and that row holds
/// the value written (the channel may not ping, or may not propose).
pub proof fn law_imported_channels_flagged(v: DbView, ids: Seq<PickleValue>, f: ChannelField)
    ensures
        forall|k: int| 0 <= k < ids.len() ==> {
            let rows = channels_flagged(v, ids, f).channels;
            let c = id_of(#[trigger] ids[k]);
            &&& channel_present(rows, c)
            &&& channel_with(channel_of(rows, c), f) == channel_of(rows, c)
        },
    decreases ids.len(),
{
    if ids.len() > 0 {
        let d = ids.drop_last();
        law_imported_channels_flagged(v, d, f);
        let w = channels_flagged(v, d, f).channels;
        let c = id_of(ids.last());
        let rows = channels_flagged(v, ids, f).channels;
        assert(rows == update_channels(ensure_channel(w, c), c, f));
        law_channel_read_back(w, c, f);
        let e = ensure_channel(w, c);
        let q = if channel_present(w, c) {
            choose|q: int| 0 <= q < w.len() && (#[trigger] w[q]).channel_id == c
        } else {
            w.len() as int
        };
        assert(e[q].channel_id == c);
        assert(rows[q].channel_id == c);
        assert(channel_present(rows, c));
        assert forall|k: int| 0 <= k < ids.len() implies {
            let x = id_of(#[trigger] ids[k]);
            &&& channel_present(rows, x)
            &&& channel_with(channel_of(rows, x), f) == channel_of(rows, x)
        } by {
            let x = id_of(ids[k]);
            if x != c {
                assert(k < d.len());
                assert(d[k] == ids[k]);
                lemma_channel_other_key(w, c, f, x);
            }
        }
    }
}

// ---------------------------------------------------------------------------
// What importing saved data gives: automatic responses from role logs
// ---------------------------------------------------------------------------

/// The conditions of response `id`, as (role, inverted) pairs in table order.
pub open spec fn conditions_of(cs: Seq<ConditionRow>, id: u64) -> Seq<(u64, bool)> {
    cs.filter_map(|c: ConditionRow| if c.rolelog_id == id { Some((c.acomp_id, c.invert)) } else { None })
}

/// Every condition belongs to a response whose key is at most `last`.
pub open spec fn conditions_below(cs: Seq<ConditionRow>, last: int) -> bool {
    forall|i: int| 0 <= i < cs.len() ==> (#[trigger] cs[i]).rolelog_id <= last
}

proof fn lemma_conditions_of_push(cs: Seq<ConditionRow>, c: ConditionRow, id: u64)
    ensures
        conditions_of(cs.push(c), id) == if c.rolelog_id == id {
            conditions_of(cs, id).push((c.acomp_id, c.invert))
        } else {
            conditions_of(cs, id)
        },
{
    assert(cs.push(c).drop_last() =~= cs);
    if c.rolelog_id == id {
        assert(conditions_of(cs, id) + seq![(c.acomp_id, c.invert)] =~= conditions_of(cs, id).push((c.acomp_id, c.invert)));
    }
}

/// A response none of whose conditions are in the table has none.
proof fn lemma_conditions_of_none(cs: Seq<ConditionRow>, id: u64)
    requires
        forall|i: int| 0 <= i < cs.len() ==> (#[trigger] cs[i]).rolelog_id != id,
    ensures
        conditions_of(cs, id) == Seq::<(u64, bool)>::empty(),
    decreases cs.len(),
{
    if cs.len() > 0 {
        let d = cs.drop_last();
        assert forall|i: int| 0 <= i < d.len() implies (#[trigger] d[i]).rolelog_id != id by {
            assert(d[i] == cs[i]);
        }
        lemma_conditions_of_none(d, id);
        assert(cs.last() == cs[cs.len() - 1]);
        assert(d.push(cs.last()) =~= cs);
        lemma_conditions_of_push(d, cs.last(), id);
    }
}

/// Adding conditions to response `log_id` adds the items to its conditions
/// and to no other response's; the rows before stay, the new rows are `log_id`'s.
proof fn lemma_add_conditions_of(cs: Seq<ConditionRow>, log_id: u64, items: Seq<(u64, bool)>, id: u64)
    ensures
        conditions_of(add_conditions(cs, log_id, items), id) == if id == log_id {
            conditions_of(cs, id) + items
        } else {
            conditions_of(cs, id)
        },
        add_conditions(cs, log_id, items).len() == cs.len() + items.len(),
        forall|i: int| 0 <= i < cs.len() ==> #[trigger] add_conditions(cs, log_id, items)[i] == cs[i],
        forall|i: int| cs.len() <= i < cs.len() + items.len() ==> (#[trigger] add_conditions(cs, log_id, items)[i]).rolelog_id == log_id,
    decreases items.len(),
{
    if items.len() == 0 {
        assert(conditions_of(cs, id) + items =~= conditions_of(cs, id));
    } else {
        let d = items.drop_last();
        lemma_add_conditions_of(cs, log_id, d, id);
        let c = add_conditions(cs, log_id, d);
        let x = items.last();
        let row = ConditionRow {
            id: crate::db_responses::next_condition_id(c),
            rolelog_id: log_id,
            cond_type: 0,
            acomp_id: x.0,
            invert: x.1,
        };
        assert(add_conditions(cs, log_id, items) == c.push(row));
        lemma_conditions_of_push(c, row, id);
        if id == log_id {
            assert((conditions_of(cs, id) + d).push(x) =~= conditions_of(cs, id) + items);
        }
    }
}

/// In a well-formed store every condition belongs to a response with a key at
/// most the last one.
proof fn lemma_wf_conditions_below(v: DbView)
    requires
        v.wf(),
    ensures
        conditions_below(v.conditions, last_response_id(v.responses)),
{
    assert forall|i: int| 0 <= i < v.conditions.len() implies (#[trigger] v.conditions[i]).rolelog_id
        <= last_response_id(v.responses) by {
        let x = v.conditions[i].rolelog_id;
        let j = choose|j: int| 0 <= j < v.responses.len() && #[trigger] v.responses[j].id == x;
        let keys = crate::database::response_keys(v.responses);
        let n = v.responses.len() - 1;
        assert(keys[j] == v.responses[j].id);
        assert(keys[n] == v.responses[n].id);
        if j < n {
            assert(keys[j] < keys[n]);
        }
    }
}

proof fn lemma_role_logs_added(v: DbView, guild_id: u64, add: bool, es: Seq<(PickleValue, PickleValue)>)
    requires
        conditions_below(v.conditions, last_response_id(v.responses)),
        role_logs_ok(es),
        last_response_id(v.responses) + es.len() <= I64_MAX,
        last_response_id(v.responses) >= 0,
    ensures
        ({
            let w = role_logs_added(v, guild_id, add, es);
            let n = v.responses.len();
            let last = last_response_id(v.responses);
            &&& last_response_id(w.responses) == last + es.len()
            &&& conditions_below(w.conditions, last + es.len())
            &&& w.responses.len() == n + es.len()
            &&& forall|i: int| 0 <= i < n ==> #[trigger] w.responses[i] == v.responses[i]
            &&& forall|k: int| 0 <= k < es.len() ==> {
                let info = (#[trigger] es[k]).1->Tuple_0@;
                let id = (last + k + 1) as u64;
                &&& w.responses[n + k] == new_response(id, guild_id, log_trigger(add, id_of(es[k].0)), id_of(info[0]),
                    text_of(info[1]))
                &&& conditions_of(w.conditions, id) == restriction_items(info[2]->Dict_0@)
            }
            &&& forall|id: u64| id <= last ==> #[trigger] conditions_of(w.conditions, id) == conditions_of(v.conditions, id)
        }),
    decreases es.len(),
{
    if es.len() > 0 {
        let d = es.drop_last();
        assert forall|k: int| 0 <= k < d.len() implies role_log_ok(#[trigger] d[k]) by {
            assert(d[k] == es[k]);
        }
        lemma_role_logs_added(v, guild_id, add, d);
        let u = role_logs_added(v, guild_id, add, d);
        let n = v.responses.len();
        let last = last_response_id(v.responses);
        let e = es.last();
        assert(e == es[es.len() - 1]);
        let info = e.1->Tuple_0@;
        let t = log_trigger(add, id_of(e.0));
        let id = crate::db_responses::next_response_id(u.responses);
        assert(id == last + d.len() + 1);
        let items = restriction_items(info[2]->Dict_0@);
        let w = role_logs_added(v, guild_id, add, es);
        let r = new_response(id, guild_id, t, id_of(info[0]), text_of(info[1]));
        assert(w.responses == u.responses.push(r));
        assert(w.conditions == add_conditions(u.conditions, id, items));
        assert(last_response_id(w.responses) == id);
        assert forall|x: u64| #![trigger conditions_of(w.conditions, x)]
            x != id implies conditions_of(w.conditions, x) == conditions_of(u.conditions, x) by {
            lemma_add_conditions_of(u.conditions, id, items, x);
        }
        lemma_add_conditions_of(u.conditions, id, items, id);
        assert forall|i: int| 0 <= i < u.conditions.len() implies (#[trigger] u.conditions[i]).rolelog_id != id by {}
        lemma_conditions_of_none(u.conditions, id);
        assert(Seq::<(u64, bool)>::empty() + items =~= items);
        assert forall|i: int| 0 <= i < w.conditions.len() implies (#[trigger] w.conditions[i]).rolelog_id
            <= last + es.len() by {
            if i < u.conditions.len() {
                assert(w.conditions[i] == u.conditions[i]);
            }
        }
        assert forall|k: int| 0 <= k < es.len() implies {
            let info = (#[trigger] es[k]).1->Tuple_0@;
            let id = (last + k + 1) as u64;
            &&& w.responses[n + k] == new_response(id, guild_id, log_trigger(add, id_of(es[k].0)), id_of(info[0]),
                text_of(info[1]))
            &&& conditions_of(w.conditions, id) == restriction_items(info[2]->Dict_0@)
        } by {
            if k < d.len() {
                assert(d[k] == es[k]);
                assert(w.responses[n + k] == u.responses[n + k]);
                assert((last + k + 1) as u64 != id);
            }
        }
        assert forall|x: u64| x <= last implies #[trigger] conditions_of(w.conditions, x) == conditions_of(v.conditions, x) by {
            assert(x != id);
        }
    }
}

/// Each role log read from saved data (`roleLogAdd`, `roleLogRemove`) becomes
/// an automatic response of the guild, after the responses already there and in
/// the order of the logs, with keys counting up from the last one: it answers
/// the role being given (or taken), in the log's channel with the log's message.
/// Its conditions are, in order, one per role of its restrictions (inverted for
/// `notHasRole`); responses already there keep their conditions.
pub proof fn law_imported_role_logs(v: DbView, guild_id: u64, add: bool, es: Seq<(PickleValue, PickleValue)>)
    requires
        v.wf(),
        role_logs_ok(es),
        last_response_id(v.responses) + es.len() <= I64_MAX,
    ensures
        ({
            let w = role_logs_added(v, guild_id, add, es);
            let n = v.responses.len();
            let last = last_response_id(v.responses);
            &&& w.responses.len() == n + es.len()
            &&& w.responses.subrange(0, n as int) == v.responses
            &&& forall|k: int| 0 <= k < es.len() ==> {
                let info = (#[trigger] es[k]).1->Tuple_0@;
                let id = (last + k + 1) as u64;
                &&& w.responses[n + k] == new_response(id, guild_id, log_trigger(add, id_of(es[k].0)), id_of(info[0]),
                    text_of(info[1]))
                &&& conditions_of(w.conditions, id) == restriction_items(info[2]->Dict_0@)
            }
            &&& forall|id: u64| id <= last ==> #[trigger] conditions_of(w.conditions, id) == conditions_of(v.conditions, id)
        }),
{
    lemma_wf_conditions_below(v);
    if v.responses.len() > 0 {
        let n = v.responses.len() - 1;
        assert(v.responses[n] == v.responses.last());
    }
    lemma_role_logs_added(v, guild_id, add, es);
    let w = role_logs_added(v, guild_id, add, es);
    assert(w.responses.subrange(0, v.responses.len() as int) =~= v.responses);
}

/// A role set of saved data: `fastping` lets each listed role skip the
/// cooldown; `restrictping` (`restrictproposal`) stops everyone in the guild
/// from pinging (proposing) unless allowed, and allows each listed role to. This
/// holds of each listed role that has no row yet, or has its row in this guild.
pub proof fn law_imported_role_set(v: DbView, guild_id: u64, e: (PickleValue, PickleValue))
    requires
        has_guild_row(v.guilds, guild_id),
        role_set_key(e.0),
        e.1 is SetOf,
        forall|k: int| 0 <= k < (e.1->SetOf_0@).len() ==> setting_kept(v.roles, guild_id, id_of(#[trigger] (e.1->SetOf_0@)[k])),
    ensures
        ({
            let w = entry_added(v, guild_id, e);
            let ids = e.1->SetOf_0@;
            &&& forall|k: int| 0 <= k < ids.len() ==> {
                let r = id_of(#[trigger] ids[k]);
                let row = setting_of(w.roles, guild_id, r);
                &&& has_setting(w.roles, guild_id, r)
                &&& is_key(e.0, "fastping"@) ==> row.ignore_gbcooldown
                &&& is_key(e.0, "restrictping"@) ==> row.ping_permission == PERMISSION::ALLOW
                &&& is_key(e.0, "restrictproposal"@) ==> row.propose_permission == PERMISSION::ALLOW
            }
            &&& is_key(e.0, "fastping"@) ==> w.guilds == v.guilds
            &&& is_key(e.0, "restrictping"@) ==> guild_of(w.guilds, guild_id)
                == guild_with(guild_of(v.guilds, guild_id), GuildField::CanPing(false))
            &&& is_key(e.0, "restrictproposal"@) ==> guild_of(w.guilds, guild_id)
                == guild_with(guild_of(v.guilds, guild_id), GuildField::CanPropose(false))
        }),
{
    crate::pickle_import::lemma_keys_distinct();
    let ids = e.1->SetOf_0@;
    if is_key(e.0, "fastping"@) {
        law_imported_roles_flagged(v, guild_id, ids, SettingField::IgnoreCooldown(true));
        crate::pickle_import::lemma_roles_flagged_tables(v, guild_id, ids, SettingField::IgnoreCooldown(true));
    } else if is_key(e.0, "restrictping"@) {
        let f = GuildField::CanPing(false);
        let u = v.with_guilds(update_guilds(v.guilds, guild_id, f));
        law_imported_roles_flagged(u, guild_id, ids, SettingField::Ping(PERMISSION::ALLOW));
        crate::pickle_import::lemma_roles_flagged_tables(u, guild_id, ids, SettingField::Ping(PERMISSION::ALLOW));
        crate::laws::law_guild_setting_read_back(v, guild_id, f);
    } else {
        let f = GuildField::CanPropose(false);
        let u = v.with_guilds(update_guilds(v.guilds, guild_id, f));
        law_imported_roles_flagged(u, guild_id, ids, SettingField::Propose(PERMISSION::ALLOW));
        crate::pickle_import::lemma_roles_flagged_tables(u, guild_id, ids, SettingField::Propose(PERMISSION::ALLOW));
        crate::laws::law_guild_setting_read_back(v, guild_id, f);
    }
}

} // verus!
