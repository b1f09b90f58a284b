use vstd::prelude::*;
use vstd::string::*;

use crate::configure::{CommandOption, OptionV, OptionValue, ValueV, fields_view, options_view};
use crate::database::{Database, DbView, I64_MAX, ResponseV, has_guild_row, keys_increasing, response_keys, sql_int};
use crate::db_responses::{
    condition_kept, condition_room, conditions_block, first_response, lemma_response_for, listed_condition,
    listed_response, listed_responses_view, new_response, next_condition_id, next_response_id, response_for,
    response_kept, response_matches, response_of, response_room, response_with_id, trigger_ok,
};
use crate::membership::{not_allowed, not_allowed_text};
use crate::ping::increasing;
use crate::structures::{LOGCONDITION, LOGTRIGGER, Reply, trigger_text};
use crate::text::{contains_u64, dec, push_dec, replace_all, replace_str, str_eq};

verus! {

// ---------------------------------------------------------------------------
// Which automatic responses an event sets off
// ---------------------------------------------------------------------------

pub open spec fn condition_role(c: LOGCONDITION) -> u64 {
    match c {
        LOGCONDITION::HasRole(r) => r,
    }
}

/// Each condition of the response holds: the member has the role, or, for
/// an inverted condition, has not.
pub open spec fn conditions_hold(v: DbView, log_id: u64, roles: Seq<u64>) -> bool {
    let cs = v.conditions.filter_map(listed_condition(log_id));
    forall|k: int| 0 <= k < cs.len() ==> (roles.contains(condition_role(#[trigger] cs[k].0)) != cs[k].1)
}

/// The response (channel, message) a trigger sets off, if it has one whose
/// conditions hold.
pub open spec fn trigger_response(v: DbView, guild_id: u64, roles: Seq<u64>, t: LOGTRIGGER) -> Option<(u64, Seq<char>)> {
    match response_for(v.responses, guild_id, t) {
        Some(id) => if conditions_hold(v, id, roles) {
            let r = response_of(v.responses, id);
            Some((r.response_channel, r.response_message))
        } else {
            None
        },
        None => None,
    }
}

pub open spec fn responder(v: DbView, guild_id: u64, roles: Seq<u64>) -> spec_fn(LOGTRIGGER) -> Option<(u64, Seq<char>)> {
    |t: LOGTRIGGER| trigger_response(v, guild_id, roles, t)
}

pub open spec fn messages_of(s: Seq<(u64, String)>) -> Seq<(u64, Seq<char>)> {
    s.map_values(|e: (u64, String)| (e.0, e.1@))
}

proof fn lemma_first_response_exists(rows: Seq<ResponseV>, guild_id: u64, t: LOGTRIGGER, k: int)
    requires
        0 <= k < rows.len(),
        response_matches(rows[k], guild_id, t),
    ensures
        exists|i: int| first_response(rows, guild_id, t, i),
    decreases k,
{
    if forall|j: int| 0 <= j < k ==> !response_matches(#[trigger] rows[j], guild_id, t) {
        assert(first_response(rows, guild_id, t, k));
    } else {
        let j = choose|j: int| 0 <= j < k && response_matches(#[trigger] rows[j], guild_id, t);
        lemma_first_response_exists(rows, guild_id, t, j);
    }
}

/// The response a trigger selects belongs to the guild, and is the one with
/// its key.
proof fn lemma_response_found(v: DbView, guild_id: u64, t: LOGTRIGGER)
    requires
        v.wf(),
        response_for(v.responses, guild_id, t) is Some,
    ensures
        response_with_id(v.responses, guild_id, response_for(v.responses, guild_id, t)->Some_0),
        sql_int(response_for(v.responses, guild_id, t)->Some_0),
{
    let rows = v.responses;
    let k = choose|k: int| 0 <= k < rows.len() && response_matches(#[trigger] rows[k], guild_id, t);
    lemma_first_response_exists(rows, guild_id, t, k);
    let i = choose|i: int| first_response(rows, guild_id, t, i);
    lemma_response_for(rows, guild_id, t, i);
    assert(crate::database::response_row_ok(rows[i]));
}

/// The responses the triggers set off for a member with the roles, in the
/// triggers' order.
pub fn check_triggers(db: &mut Database, guild_id: u64, roles: &Vec<u64>, triggers: &Vec<LOGTRIGGER>) -> (res: Vec<(u64, String)>)
    requires
        old(db)@.wf(),
        sql_int(guild_id),
        forall|i: int| 0 <= i < triggers.len() ==> trigger_ok(#[trigger] triggers@[i]),
    ensures
        final(db)@ == old(db)@,
        messages_of(res@) == triggers@.filter_map(responder(old(db)@, guild_id, roles@)),
{
    let ghost v = db@;
    let ghost f = responder(v, guild_id, roles@);
    let mut res: Vec<(u64, String)> = Vec::new();
    let mut i: usize = 0;
    while i < triggers.len()
        invariant
            i <= triggers.len(),
            db@ == v,
            v.wf(),
            sql_int(guild_id),
            f == responder(v, guild_id, roles@),
            forall|j: int| 0 <= j < triggers.len() ==> trigger_ok(#[trigger] triggers@[j]),
            messages_of(res@) == triggers@.take(i as int).filter_map(f),
        decreases triggers.len() - i,
    {
        proof {
            triggers@.lemma_filter_map_take_succ(f, i as int);
            assert(trigger_ok(triggers@[i as int]));
        }
        let t = triggers[i];
        if let Some(id) = db.has_response(guild_id, t) {
            proof {
                lemma_response_found(v, guild_id, t);
            }
            let conds = db.get_response_conditions(id);
            let ghost cs = v.conditions.filter_map(listed_condition(id));
            let mut hold = true;
            let mut k: usize = 0;
            while k < conds.len()
                invariant
                    k <= conds.len(),
                    conds@ == cs,
                    hold == forall|q: int| 0 <= q < k ==> (roles@.contains(condition_role(#[trigger] cs[q].0)) != cs[q].1),
                decreases conds.len() - k,
            {
                let (c, inv, _) = conds[k];
                let r = match c {
                    LOGCONDITION::HasRole(r) => r,
                };
                if contains_u64(roles, r) == inv {
                    hold = false;
                }
                k += 1;
            }
            if hold {
                match db.get_response(guild_id, id) {
                    Ok(m) => {
                        let ghost before = res@;
                        res.push(m);
                        proof {
                            assert(messages_of(res@) =~= messages_of(before).push((m.0, m.1@)));
                        }
                    },
                    Err(_) => {},
                }
            }
        }
        i += 1;
    }
    proof {
        assert(triggers@.take(triggers.len() as int) =~= triggers@);
    }
    res
}

// ---------------------------------------------------------------------------
// Role changes and joins
// ---------------------------------------------------------------------------

/// Two increasing sequences with the same elements are the same.
pub proof fn lemma_increasing_unique(p: Seq<u64>, q: Seq<u64>)
    requires
        increasing(p),
        increasing(q),
        forall|x: u64| p.contains(x) <==> q.contains(x),
    ensures
        p == q,
    decreases p.len(),
{
    if p.len() == 0 {
        if q.len() > 0 {
            assert(q.contains(q[0]));
        }
        assert(p =~= q);
    } else {
        assert(p.contains(p[0]));
        assert(q.len() > 0);
        assert(q.contains(q[0]));
        let a = choose|j: int| 0 <= j < q.len() && q[j] == p[0];
        let b = choose|j: int| 0 <= j < p.len() && p[j] == q[0];
        if a > 0 {
            assert(q[0] < q[a]);
        }
        if b > 0 {
            assert(p[0] < p[b]);
        }
        assert(p[0] == q[0]);
        let p1 = p.drop_first();
        let q1 = q.drop_first();
        assert forall|x: u64| p1.contains(x) <==> q1.contains(x) by {
            if p1.contains(x) {
                let j = choose|j: int| 0 <= j < p1.len() && p1[j] == x;
                assert(p[j + 1] == x);
                assert(p[0] < p[j + 1]);
                assert(q.contains(x));
                let m = choose|m: int| 0 <= m < q.len() && q[m] == x;
                assert(m != 0);
                assert(q1[m - 1] == x);
            }
            if q1.contains(x) {
                let j = choose|j: int| 0 <= j < q1.len() && q1[j] == x;
                assert(q[j + 1] == x);
                assert(q[0] < q[j + 1]);
                assert(p.contains(x));
                let m = choose|m: int| 0 <= m < p.len() && p[m] == x;
                assert(m != 0);
                assert(p1[m - 1] == x);
            }
        }
        lemma_increasing_unique(p1, q1);
        assert(p =~= seq![p[0]] + p1);
        assert(q =~= seq![q[0]] + q1);
    }
}

/// The ids in `a` and not in `b`, in increasing order.
pub open spec fn sorted_difference(a: Seq<u64>, b: Seq<u64>) -> Seq<u64> {
    choose|q: Seq<u64>| increasing(q) && forall|x: u64| q.contains(x) <==> (a.contains(x) && !b.contains(x))
}

fn difference(a: &Vec<u64>, b: &Vec<u64>) -> (res: Vec<u64>)
    ensures
        res@ == sorted_difference(a@, b@),
        forall|x: u64| res@.contains(x) <==> (a@.contains(x) && !b@.contains(x)),
{
    let mut res: Vec<u64> = Vec::new();
    let mut i: usize = 0;
    while i < a.len()
        invariant
            i <= a.len(),
            increasing(res@),
            forall|x: u64| res@.contains(x) <==> (a@.take(i as int).contains(x) && !b@.contains(x)),
        decreases a.len() - i,
    {
        let x = a[i];
        let ghost before = res@;
        if !contains_u64(b, x) {
            crate::ping::insert_sorted_pub(&mut res, x);
        }
        proof {
            assert forall|y: u64| res@.contains(y) <==> (a@.take(i + 1).contains(y) && !b@.contains(y)) by {
                if a@.take(i + 1).contains(y) {
                    let k = choose|k: int| 0 <= k < i + 1 && #[trigger] a@.take(i + 1)[k] == y;
                    if k < i {
                        assert(a@.take(i as int)[k] == y);
                    }
                }
                if a@.take(i as int).contains(y) {
                    let k = choose|k: int| 0 <= k < i && #[trigger] a@.take(i as int)[k] == y;
                    assert(a@.take(i + 1)[k] == y);
                }
                if y == x {
                    assert(a@.take(i + 1)[i as int] == y);
                }
            }
        }
        i += 1;
    }
    proof {
        assert(a@.take(a.len() as int) =~= a@);
        let q = sorted_difference(a@, b@);
        assert(increasing(q) && forall|x: u64| q.contains(x) <==> (a@.contains(x) && !b@.contains(x)));
        lemma_increasing_unique(res@, q);
    }
    res
}

/// The triggers a change of roles sets off: each role taken away, then each
/// role given, each in increasing order.
pub open spec fn role_change_triggers(old_roles: Seq<u64>, new_roles: Seq<u64>) -> Seq<LOGTRIGGER> {
    sorted_difference(old_roles, new_roles).map_values(|r: u64| LOGTRIGGER::RoleRemove(r))
        + sorted_difference(new_roles, old_roles).map_values(|r: u64| LOGTRIGGER::RoleAdd(r))
}

/// A response message for the member: `{userID}` becomes the member's id,
/// then `{name}` its name.
pub open spec fn fill_template(message: Seq<char>, user_id: u64, name: Seq<char>) -> Seq<char> {
    replace_all(replace_all(message, "{userID}"@, dec(user_id as nat)), "{name}"@, name)
}

pub open spec fn filled(s: Seq<(u64, Seq<char>)>, user_id: u64, name: Seq<char>) -> Seq<(u64, Seq<char>)> {
    s.map_values(|e: (u64, Seq<char>)| (e.0, fill_template(e.1, user_id, name)))
}

fn fill_all(responses: Vec<(u64, String)>, user_id: u64, name: &str) -> (res: Vec<(u64, String)>)
    ensures
        messages_of(res@) == filled(messages_of(responses@), user_id, name@),
{
    proof {
        reveal_strlit("{userID}");
        reveal_strlit("{name}");
    }
    let mut id_text = String::new();
    push_dec(&mut id_text, user_id as u128);
    assert(id_text@ =~= dec(user_id as nat));
    let mut res: Vec<(u64, String)> = Vec::new();
    let mut i: usize = 0;
    while i < responses.len()
        invariant
            i <= responses.len(),
            id_text@ == dec(user_id as nat),
            "{userID}"@.len() > 0,
            "{name}"@.len() > 0,
            messages_of(res@) == filled(messages_of(responses@), user_id, name@).take(i as int),
        decreases responses.len() - i,
    {
        let first = replace_str(responses[i].1.as_str(), "{userID}", id_text.as_str());
        let second = replace_str(first.as_str(), "{name}", name);
        let ghost before = res@;
        let ghost e = (responses@[i as int].0, fill_template(responses@[i as int].1@, user_id, name@));
        assert(second@ == fill_template(responses@[i as int].1@, user_id, name@));
        res.push((responses[i].0, second));
        proof {
            assert(messages_of(res@) =~= messages_of(before).push(e));
            assert(filled(messages_of(responses@), user_id, name@)[i as int] == e);
            assert(filled(messages_of(responses@), user_id, name@).take(i + 1)
                =~= filled(messages_of(responses@), user_id, name@).take(i as int).push(e));
        }
        i += 1;
    }
    proof {
        assert(filled(messages_of(responses@), user_id, name@).take(responses.len() as int)
            =~= filled(messages_of(responses@), user_id, name@));
    }
    res
}

/// The messages (channel, text) to send when a member's roles change from
/// `old_roles` to `new_roles`; conditions are checked against the new roles.
pub fn member_update_responses(
    db: &mut Database,
    guild_id: u64,
    old_roles: &Vec<u64>,
    new_roles: &Vec<u64>,
    user_id: u64,
    user_name: &str,
) -> (res: Vec<(u64, String)>)
    requires
        old(db)@.wf(),
        sql_int(guild_id),
        forall|i: int| 0 <= i < old_roles.len() ==> sql_int(#[trigger] old_roles@[i]),
        forall|i: int| 0 <= i < new_roles.len() ==> sql_int(#[trigger] new_roles@[i]),
    ensures
        final(db)@ == old(db)@,
        messages_of(res@) == filled(
            role_change_triggers(old_roles@, new_roles@).filter_map(responder(old(db)@, guild_id, new_roles@)),
            user_id,
            user_name@,
        ),
{
    let removed = difference(old_roles, new_roles);
    let added = difference(new_roles, old_roles);
    let mut triggers: Vec<LOGTRIGGER> = Vec::new();
    let mut i: usize = 0;
    while i < removed.len()
        invariant
            i <= removed.len(),
            triggers@ == removed@.take(i as int).map_values(|r: u64| LOGTRIGGER::RoleRemove(r)),
        decreases removed.len() - i,
    {
        triggers.push(LOGTRIGGER::RoleRemove(removed[i]));
        proof {
            assert(triggers@ =~= removed@.take(i + 1).map_values(|r: u64| LOGTRIGGER::RoleRemove(r)));
        }
        i += 1;
    }
    let mut j: usize = 0;
    while j < added.len()
        invariant
            j <= added.len(),
            i == removed.len(),
            triggers@ == removed@.take(i as int).map_values(|r: u64| LOGTRIGGER::RoleRemove(r))
                + added@.take(j as int).map_values(|r: u64| LOGTRIGGER::RoleAdd(r)),
        decreases added.len() - j,
    {
        triggers.push(LOGTRIGGER::RoleAdd(added[j]));
        proof {
            assert(triggers@ =~= removed@.take(i as int).map_values(|r: u64| LOGTRIGGER::RoleRemove(r))
                + added@.take(j + 1).map_values(|r: u64| LOGTRIGGER::RoleAdd(r)));
        }
        j += 1;
    }
    proof {
        assert(removed@.take(i as int) =~= removed@);
        assert(added@.take(j as int) =~= added@);
        assert(triggers@ == role_change_triggers(old_roles@, new_roles@));
        assert forall|k: int| 0 <= k < triggers.len() implies trigger_ok(#[trigger] triggers@[k]) by {
            if k < removed.len() {
                assert(removed@.contains(removed@[k]));
                let q = choose|q: int| 0 <= q < old_roles.len() && old_roles@[q] == removed@[k];
                assert(sql_int(old_roles@[q]));
            } else {
                let m = k - removed.len();
                assert(added@.contains(added@[m]));
                let q = choose|q: int| 0 <= q < new_roles.len() && new_roles@[q] == added@[m];
                assert(sql_int(new_roles@[q]));
            }
        }
    }
    let responses = check_triggers(db, guild_id, new_roles, &triggers);
    fill_all(responses, user_id, user_name)
}

/// The messages to send when a member joins the guild.
pub fn member_join_responses(db: &mut Database, guild_id: u64, roles: &Vec<u64>, user_id: u64, user_name: &str) -> (res: Vec<(u64, String)>)
    requires
        old(db)@.wf(),
        sql_int(guild_id),
    ensures
        final(db)@ == old(db)@,
        messages_of(res@) == filled(
            seq![LOGTRIGGER::JoinServer()].filter_map(responder(old(db)@, guild_id, roles@)),
            user_id,
            user_name@,
        ),
{
    let mut triggers: Vec<LOGTRIGGER> = Vec::new();
    triggers.push(LOGTRIGGER::JoinServer());
    assert(triggers@ =~= seq![LOGTRIGGER::JoinServer()]);
    let responses = check_triggers(db, guild_id, roles, &triggers);
    fill_all(responses, user_id, user_name)
}


// ---------------------------------------------------------------------------
// `/add_auto_response` and `/remove_auto_response`
// ---------------------------------------------------------------------------

/// The role of the last option that holds one.
pub open spec fn last_role(opts: Seq<OptionV>) -> Option<u64>
    decreases opts.len(),
{
    if opts.len() == 0 {
        None
    } else {
        match opts.last().value {
            ValueV::Role(r) => Some(r),
            _ => last_role(opts.drop_last()),
        }
    }
}

/// The channel of the last option that holds one.
pub open spec fn last_channel(opts: Seq<OptionV>) -> Option<u64>
    decreases opts.len(),
{
    if opts.len() == 0 {
        None
    } else {
        match opts.last().value {
            ValueV::Channel(c, _) => Some(c),
            _ => last_channel(opts.drop_last()),
        }
    }
}

/// The string of the last option that holds one, or the empty string.
pub open spec fn last_string(opts: Seq<OptionV>) -> Seq<char>
    decreases opts.len(),
{
    if opts.len() == 0 {
        Seq::empty()
    } else {
        match opts.last().value {
            ValueV::String(s) => s,
            _ => last_string(opts.drop_last()),
        }
    }
}

/// The trigger a subcommand names.
pub open spec fn sub_trigger(sub: Seq<char>, role: Option<u64>) -> Option<LOGTRIGGER> {
    if sub == "role_add"@ {
        match role {
            Some(r) => Some(LOGTRIGGER::RoleAdd(r)),
            None => None,
        }
    } else if sub == "role_remove"@ {
        match role {
            Some(r) => Some(LOGTRIGGER::RoleRemove(r)),
            None => None,
        }
    } else if sub == "join_server"@ {
        Some(LOGTRIGGER::JoinServer())
    } else {
        None
    }
}

proof fn lemma_trigger_names_distinct()
    ensures
        "role_add"@ != "role_remove"@,
        "role_add"@ != "join_server"@,
        "role_remove"@ != "join_server"@,
        "add_auto_response"@ != "remove_auto_response"@,
        "add_auto_response_condition"@ != "remove_auto_response_condition"@,
{
    reveal_strlit("role_add");
    reveal_strlit("role_remove");
    reveal_strlit("join_server");
    reveal_strlit("add_auto_response");
    reveal_strlit("remove_auto_response");
    reveal_strlit("add_auto_response_condition");
    reveal_strlit("remove_auto_response_condition");
    assert("role_add"@.len() == 8);
    assert("role_remove"@.len() == 11);
    assert("join_server"@[0] != "role_remove"@[0]);
    assert("add_auto_response"@.len() == 17);
    assert("remove_auto_response"@.len() == 20);
    assert("add_auto_response_condition"@.len() == 27);
    assert("remove_auto_response_condition"@.len() == 30);
}

fn trigger_from(sub: &str, role: Option<u64>) -> (res: Option<LOGTRIGGER>)
    ensures
        res == sub_trigger(sub@, role),
{
    proof {
        lemma_trigger_names_distinct();
    }
    if str_eq(sub, "role_add") {
        match role {
            Some(r) => Some(LOGTRIGGER::RoleAdd(r)),
            None => None,
        }
    } else if str_eq(sub, "role_remove") {
        match role {
            Some(r) => Some(LOGTRIGGER::RoleRemove(r)),
            None => None,
        }
    } else if str_eq(sub, "join_server") {
        Some(LOGTRIGGER::JoinServer())
    } else {
        None
    }
}

/// The role, channel and message the options give (the last of each).
fn response_options(options: &Vec<CommandOption>) -> (res: (Option<u64>, Option<u64>, String))
    ensures
        res.0 == last_role(options_view(options@)),
        res.1 == last_channel(options_view(options@)),
        res.2@ == last_string(options_view(options@)),
{
    let ghost ov = options_view(options@);
    let mut role: Option<u64> = None;
    let mut channel: Option<u64> = None;
    let mut message = String::new();
    let mut i: usize = 0;
    proof {
        assert(ov.take(0) =~= Seq::<OptionV>::empty());
    }
    while i < options.len()
        invariant
            i <= options.len(),
            ov == options_view(options@),
            role == last_role(ov.take(i as int)),
            channel == last_channel(ov.take(i as int)),
            message@ == last_string(ov.take(i as int)),
        decreases options.len() - i,
    {
        proof {
            assert(ov.take(i + 1).drop_last() =~= ov.take(i as int));
            assert(ov.take(i + 1).last() == options@[i as int]@);
        }
        match &options[i].value {
            OptionValue::Role(r) => {
                role = Some(*r);
            },
            OptionValue::Channel(c, _) => {
                channel = Some(*c);
            },
            OptionValue::String(t) => {
                message = t.clone();
            },
            _ => {},
        }
        i += 1;
    }
    proof {
        assert(ov.take(options.len() as int) =~= ov);
    }
    (role, channel, message)
}

/// The command runs to its end: it names a trigger (with its role) and is
/// one of the two commands; a new response has a channel and a known guild,
/// and a response to remove has no conditions left.
pub open spec fn auto_response_ok(v: DbView, guild_id: u64, command: Seq<char>, sub: Seq<char>, opts: Seq<OptionV>) -> bool {
    let t = sub_trigger(sub, last_role(opts));
    &&& sql_int(guild_id)
    &&& t is Some
    &&& trigger_ok(t->Some_0)
    &&& command == "add_auto_response"@ || command == "remove_auto_response"@
    &&& command == "add_auto_response"@ && response_for(v.responses, guild_id, t->Some_0) is None
        ==> (last_channel(opts) matches Some(c) && sql_int(c)) && has_guild_row(v.guilds, guild_id) && response_room(v.responses)
    &&& command == "remove_auto_response"@ ==> !conditions_block(v, guild_id, t->Some_0)
}

/// The store and the message after the command.
pub open spec fn auto_response_result(v: DbView, guild_id: u64, command: Seq<char>, sub: Seq<char>, opts: Seq<OptionV>) -> (DbView, Seq<char>) {
    let t = sub_trigger(sub, last_role(opts))->Some_0;
    let found = response_for(v.responses, guild_id, t) is Some;
    if command == "add_auto_response"@ {
        if found {
            (v, "Automatic response with that trigger already present."@)
        } else {
            (v.with_responses(v.responses.push(new_response(next_response_id(v.responses), guild_id, t,
                last_channel(opts)->Some_0, last_string(opts)))), "Added automatic response."@)
        }
    } else {
        (v.with_responses(v.responses.filter(response_kept(guild_id, t))),
            if found { "Removed automatic response."@ } else { "Could not find automatic response."@ })
    }
}

pub fn auto_response(
    db: &mut Database,
    guild_id: u64,
    member_admin: bool,
    command: &str,
    sub: &str,
    options: &Option<Vec<CommandOption>>,
) -> (res: Reply)
    requires
        old(db)@.wf(),
        member_admin && options is Some ==> auto_response_ok(old(db)@, guild_id, command@, sub@,
            options_view(options->Some_0@)),
    ensures
        final(db)@.wf(),
        !member_admin ==> final(db)@ == old(db)@ && res@ == (not_allowed_text(), true),
        member_admin && options is None ==> final(db)@ == old(db)@ && res@ == ("Invalid usage of command"@, true),
        member_admin && options is Some ==> ({
            let r = auto_response_result(old(db)@, guild_id, command@, sub@, options_view(options->Some_0@));
            final(db)@ == r.0 && res@ == (r.1, false)
        }),
{
    if !member_admin {
        return not_allowed();
    }
    let opts = match options {
        Some(o) => o,
        None => {
            return Reply { text: String::from_str("Invalid usage of command"), ephemeral: true };
        },
    };
    proof {
        lemma_trigger_names_distinct();
    }
    let (role, channel, message) = response_options(opts);
    let trigger = match trigger_from(sub, role) {
        Some(t) => t,
        None => LOGTRIGGER::JoinServer(),
    };
    let text = if str_eq(command, "add_auto_response") {
        if db.has_response(guild_id, trigger).is_some() {
            String::from_str("Automatic response with that trigger already present.")
        } else {
            let c = match channel {
                Some(c) => c,
                None => 0,
            };
            let _ = db.add_response(guild_id, trigger, c, message.as_str());
            String::from_str("Added automatic response.")
        }
    } else {
        match db.remove_response(guild_id, trigger) {
            Ok(true) => String::from_str("Removed automatic response."),
            _ => String::from_str("Could not find automatic response."),
        }
    };
    Reply { text, ephemeral: false }
}

// ---------------------------------------------------------------------------
// `/add_auto_response_condition` and `/remove_auto_response_condition`
// ---------------------------------------------------------------------------

/// The role of the last option with the name that holds one.
pub open spec fn named_role(opts: Seq<OptionV>, name: Seq<char>) -> Option<u64>
    decreases opts.len(),
{
    if opts.len() == 0 {
        None
    } else if opts.last().name == name && opts.last().value is Role {
        Some(opts.last().value->Role_0)
    } else {
        named_role(opts.drop_last(), name)
    }
}

/// The value of the last boolean `invert` option, `false` without one.
pub open spec fn invert_option(opts: Seq<OptionV>) -> bool
    decreases opts.len(),
{
    if opts.len() == 0 {
        false
    } else if opts.last().name == "invert"@ && opts.last().value is Boolean {
        opts.last().value->Boolean_0
    } else {
        invert_option(opts.drop_last())
    }
}

/// The key of the first listed condition that asks for `role`, inverted as
/// given.
pub open spec fn find_condition(cs: Seq<(LOGCONDITION, bool, u64)>, role: u64, invert: bool) -> Option<u64>
    decreases cs.len(),
{
    if cs.len() == 0 {
        None
    } else if cs[0].0 == LOGCONDITION::HasRole(role) && cs[0].1 == invert {
        Some(cs[0].2)
    } else {
        find_condition(cs.drop_first(), role, invert)
    }
}

pub open spec fn condition_ok(v: DbView, guild_id: u64, command: Seq<char>, sub: Seq<char>, opts: Seq<OptionV>) -> bool {
    let t = sub_trigger(sub, named_role(opts, "role"@));
    &&& sql_int(guild_id)
    &&& t is Some
    &&& trigger_ok(t->Some_0)
    &&& named_role(opts, "required_role"@) is Some
    &&& response_for(v.responses, guild_id, t->Some_0) is Some ==> (
        (command == "add_auto_response_condition"@ || command == "remove_auto_response_condition"@)
        && (command == "add_auto_response_condition"@ ==> condition_room(v.conditions)
            && sql_int(named_role(opts, "required_role"@)->Some_0)))
}

pub open spec fn condition_result(v: DbView, guild_id: u64, command: Seq<char>, sub: Seq<char>, opts: Seq<OptionV>) -> (DbView, Seq<char>) {
    let t = sub_trigger(sub, named_role(opts, "role"@))->Some_0;
    let r = named_role(opts, "required_role"@)->Some_0;
    let invert = invert_option(opts);
    match response_for(v.responses, guild_id, t) {
        None => (v, "No such auto response exists."@),
        Some(id) => if command == "add_auto_response_condition"@ {
            (v.with_conditions(v.conditions.push(crate::database::ConditionRow {
                id: next_condition_id(v.conditions),
                rolelog_id: id,
                cond_type: 0,
                acomp_id: r,
                invert,
            })), "Succesfully added condition."@)
        } else {
            match find_condition(v.conditions.filter_map(listed_condition(id)), r, invert) {
                Some(cid) => (v.with_conditions(v.conditions.filter(condition_kept(cid))), "Succesfully removed condition"@),
                None => (v, "Condition not found"@),
            }
        },
    }
}

fn condition_options(options: &Vec<CommandOption>) -> (res: (Option<u64>, Option<u64>, bool))
    ensures
        res.0 == named_role(options_view(options@), "role"@),
        res.1 == named_role(options_view(options@), "required_role"@),
        res.2 == invert_option(options_view(options@)),
{
    let ghost ov = options_view(options@);
    let mut role: Option<u64> = None;
    let mut target: Option<u64> = None;
    let mut invert = false;
    let mut i: usize = 0;
    proof {
        assert(ov.take(0) =~= Seq::<OptionV>::empty());
    }
    while i < options.len()
        invariant
            i <= options.len(),
            ov == options_view(options@),
            role == named_role(ov.take(i as int), "role"@),
            target == named_role(ov.take(i as int), "required_role"@),
            invert == invert_option(ov.take(i as int)),
        decreases options.len() - i,
    {
        proof {
            assert(ov.take(i + 1).drop_last() =~= ov.take(i as int));
            assert(ov.take(i + 1).last() == options@[i as int]@);
        }
        let o = &options[i];
        match o.value {
            OptionValue::Role(r) => {
                if str_eq(o.name.as_str(), "role") {
                    role = Some(r);
                }
                if str_eq(o.name.as_str(), "required_role") {
                    target = Some(r);
                }
            },
            OptionValue::Boolean(b) => {
                if str_eq(o.name.as_str(), "invert") {
                    invert = b;
                }
            },
            _ => {},
        }
        i += 1;
    }
    proof {
        assert(ov.take(options.len() as int) =~= ov);
    }
    (role, target, invert)
}

fn find_condition_exec(cs: &Vec<(LOGCONDITION, bool, u64)>, role: u64, invert: bool) -> (res: Option<u64>)
    ensures
        res == find_condition(cs@, role, invert),
{
    assert(cs@.skip(0) =~= cs@);
    let mut i: usize = 0;
    while i < cs.len()
        invariant
            i <= cs.len(),
            find_condition(cs@, role, invert) == find_condition(cs@.skip(i as int), role, invert),
        decreases cs.len() - i,
    {
        assert(cs@.skip(i as int).drop_first() =~= cs@.skip(i + 1));
        let (c, inv, id) = cs[i];
        if c == LOGCONDITION::HasRole(role) && inv == invert {
            return Some(id);
        }
        i += 1;
    }
    assert(cs@.skip(i as int) =~= Seq::<(LOGCONDITION, bool, u64)>::empty());
    None
}

pub fn auto_response_condition(
    db: &mut Database,
    guild_id: u64,
    member_admin: bool,
    command: &str,
    sub: &str,
    options: &Option<Vec<CommandOption>>,
) -> (res: Reply)
    requires
        old(db)@.wf(),
        member_admin && options is Some ==> condition_ok(old(db)@, guild_id, command@, sub@,
            options_view(options->Some_0@)),
    ensures
        final(db)@.wf(),
        !member_admin ==> final(db)@ == old(db)@ && res@ == (not_allowed_text(), true),
        member_admin && options is None ==> final(db)@ == old(db)@ && res@ == ("Invalid usage of command"@, true),
        member_admin && options is Some ==> ({
            let r = condition_result(old(db)@, guild_id, command@, sub@, options_view(options->Some_0@));
            final(db)@ == r.0 && res@ == (r.1, false)
        }),
{
    if !member_admin {
        return not_allowed();
    }
    let opts = match options {
        Some(o) => o,
        None => {
            return Reply { text: String::from_str("Invalid usage of command"), ephemeral: true };
        },
    };
    proof {
        lemma_trigger_names_distinct();
    }
    let ghost v = db@;
    let (role, target, invert) = condition_options(opts);
    let trigger = match trigger_from(sub, role) {
        Some(t) => t,
        None => LOGTRIGGER::JoinServer(),
    };
    let r = match target {
        Some(r) => r,
        None => 0,
    };
    let text = match db.has_response(guild_id, trigger) {
        Some(id) => {
            proof {
                lemma_response_found(v, guild_id, trigger);
                let i = choose|i: int| 0 <= i < v.responses.len() && (#[trigger] v.responses[i]).id == id
                    && v.responses[i].guild_id == guild_id;
                assert(crate::database::has_response_row(v.responses, id));
            }
            if str_eq(command, "add_auto_response_condition") {
                db.add_response_condition(id, LOGCONDITION::HasRole(r), invert);
                String::from_str("Succesfully added condition.")
            } else {
                let conditions = db.get_response_conditions(id);
                match find_condition_exec(&conditions, r, invert) {
                    Some(cid) => {
                        proof {
                            let cs = v.conditions.filter_map(listed_condition(id));
                            lemma_found_condition_key(v, id, r, invert);
                        }
                        db.remove_response_condition(cid);
                        String::from_str("Succesfully removed condition")
                    },
                    None => String::from_str("Condition not found"),
                }
            }
        },
        None => String::from_str("No such auto response exists."),
    };
    Reply { text, ephemeral: false }
}

/// A condition found for a response has a key the store accepts.
proof fn lemma_found_condition_key(v: DbView, id: u64, role: u64, invert: bool)
    requires
        v.wf(),
        find_condition(v.conditions.filter_map(listed_condition(id)), role, invert) is Some,
    ensures
        sql_int(find_condition(v.conditions.filter_map(listed_condition(id)), role, invert)->Some_0),
{
    let cs = v.conditions.filter_map(listed_condition(id));
    lemma_find_condition_member(cs, role, invert);
    let k = choose|k: int| 0 <= k < cs.len() && cs[k].2 == find_condition(cs, role, invert)->Some_0;
    assert(cs.contains(cs[k]));
    v.conditions.lemma_filter_map_contains(listed_condition(id), cs[k]);
    let c = choose|c: crate::database::ConditionRow| #[trigger] v.conditions.contains(c) && listed_condition(id)(c) == Some(cs[k]);
    let j = choose|j: int| 0 <= j < v.conditions.len() && v.conditions[j] == c;
    assert(crate::database::condition_row_ok(v.conditions[j]));
}

proof fn lemma_find_condition_member(cs: Seq<(LOGCONDITION, bool, u64)>, role: u64, invert: bool)
    requires
        find_condition(cs, role, invert) is Some,
    ensures
        exists|k: int| 0 <= k < cs.len() && cs[k].2 == find_condition(cs, role, invert)->Some_0,
    decreases cs.len(),
{
    if cs[0].0 == LOGCONDITION::HasRole(role) && cs[0].1 == invert {
        assert(cs[0].2 == find_condition(cs, role, invert)->Some_0);
    } else {
        lemma_find_condition_member(cs.drop_first(), role, invert);
        let k = choose|k: int| 0 <= k < cs.drop_first().len() && cs.drop_first()[k].2 == find_condition(cs.drop_first(), role, invert)->Some_0;
        assert(cs[k + 1] == cs.drop_first()[k]);
    }
}

// ---------------------------------------------------------------------------
// `/list_auto_responses`
// ---------------------------------------------------------------------------

pub open spec fn response_field(e: (u64, Seq<char>, LOGTRIGGER)) -> (Seq<char>, Seq<char>) {
    (trigger_text(e.2), "Message to channel with id "@ + dec(e.0 as nat) + " as follows:\n"@ + e.1)
}

/// The guild's automatic responses, one field each (moderators only).
pub fn list_auto_responses(db: &Database, guild_id: u64, member_admin: bool) -> (res: Result<Vec<(String, String)>, Reply>)
    requires
        db@.wf(),
        member_admin ==> sql_int(guild_id),
    ensures
        !member_admin ==> (res matches Err(r) && r@ == (not_allowed_text(), true)),
        member_admin ==> (res matches Ok(f) && fields_view(f@)
            == db@.responses.filter_map(listed_response(guild_id)).map_values(|e: (u64, Seq<char>, LOGTRIGGER)| response_field(e))),
{
    if !member_admin {
        return Err(not_allowed());
    }
    let responses = match db.get_all_responses(guild_id) {
        Ok(r) => r,
        Err(_) => Vec::new(),
    };
    let ghost listed = listed_responses_view(responses@);
    let mut fields: Vec<(String, String)> = Vec::new();
    let mut i: usize = 0;
    while i < responses.len()
        invariant
            i <= responses.len(),
            listed == listed_responses_view(responses@),
            fields_view(fields@) == listed.take(i as int).map_values(|e: (u64, Seq<char>, LOGTRIGGER)| response_field(e)),
        decreases responses.len() - i,
    {
        let (channel, message, trigger) = (responses[i].0, &responses[i].1, responses[i].2);
        let title = trigger.to_text();
        let mut text = String::from_str("Message to channel with id ");
        push_dec(&mut text, channel as u128);
        text.append(" as follows:\n");
        text.append(message.as_str());
        let ghost before = fields@;
        fields.push((title, text));
        proof {
            assert(listed[i as int] == (channel, message@, trigger));
            assert(listed.take(i + 1) =~= listed.take(i as int).push(listed[i as int]));
            assert(fields_view(fields@) =~= fields_view(before).push(response_field(listed[i as int])));
        }
        i += 1;
    }
    proof {
        assert(listed.take(responses.len() as int) =~= listed);
    }
    Ok(fields)
}


// ---------------------------------------------------------------------------
// Checks before the response commands
// ---------------------------------------------------------------------------

fn trigger_role(t: LOGTRIGGER) -> (res: u64)
    ensures
        res == crate::db_responses::trigger_ref(t),
{
    match t {
        LOGTRIGGER::RoleAdd(r) => r,
        LOGTRIGGER::RoleRemove(r) => r,
        _ => 0,
    }
}

/// Whether `/add_auto_response` or `/remove_auto_response` can run to its
/// end with these options (see `auto_response_ok`).
pub fn auto_response_valid(db: &mut Database, guild_id: u64, command: &str, sub: &str, options: &Vec<CommandOption>) -> (r: bool)
    requires
        old(db)@.wf(),
    ensures
        final(db)@ == old(db)@,
        r == auto_response_ok(old(db)@, guild_id, command@, sub@, options_view(options@)),
{
    proof {
        lemma_trigger_names_distinct();
    }
    if guild_id > I64_MAX {
        return false;
    }
    let (role, channel, _) = response_options(options);
    let t = match trigger_from(sub, role) {
        Some(t) => t,
        None => {
            return false;
        },
    };
    if trigger_role(t) > I64_MAX {
        return false;
    }
    let add = str_eq(command, "add_auto_response");
    let remove = str_eq(command, "remove_auto_response");
    if !add && !remove {
        return false;
    }
    if add {
        if db.has_response(guild_id, t).is_none() {
            let channel_ok = match channel {
                Some(c) => c <= I64_MAX,
                None => false,
            };
            if !channel_ok || !db.guild_known(guild_id) || !db.has_response_room().0 {
                return false;
            }
        }
        true
    } else {
        !db.conditions_block_exec(guild_id, t)
    }
}

/// Whether `/add_auto_response_condition` or
/// `/remove_auto_response_condition` can run to its end with these options
/// (see `condition_ok`).
pub fn condition_valid(db: &mut Database, guild_id: u64, command: &str, sub: &str, options: &Vec<CommandOption>) -> (r: bool)
    requires
        old(db)@.wf(),
    ensures
        final(db)@ == old(db)@,
        r == condition_ok(old(db)@, guild_id, command@, sub@, options_view(options@)),
{
    proof {
        lemma_trigger_names_distinct();
    }
    if guild_id > I64_MAX {
        return false;
    }
    let (role, target, _) = condition_options(options);
    let t = match trigger_from(sub, role) {
        Some(t) => t,
        None => {
            return false;
        },
    };
    if trigger_role(t) > I64_MAX {
        return false;
    }
    let required = match target {
        Some(r) => r,
        None => {
            return false;
        },
    };
    match db.has_response(guild_id, t) {
        None => true,
        Some(_) => {
            if str_eq(command, "add_auto_response_condition") {
                db.has_response_room().1 && required <= I64_MAX
            } else {
                str_eq(command, "remove_auto_response_condition")
            }
        },
    }
}

} // verus!
