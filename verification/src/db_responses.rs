use vstd::prelude::*;
use vstd::string::*;

use crate::database::{
    ConditionRow, Database, DbError, DbView, I64_MAX, ResponseRow, ResponseV, condition_keys,
    condition_row_ok, has_guild_row, has_response_row, keys_increasing, response_keys,
    response_row_ok, responses_view, sql_int,
};
use crate::db_lists::{lemma_filter_has, lemma_filter_keeps};
use crate::structures::{LOGCONDITION, LOGTRIGGER, trigger_kind, trigger_of};

verus! {

/// The role a trigger refers to, or 0 for joining and leaving the server.
pub open spec fn trigger_ref(t: LOGTRIGGER) -> u64 {
    match t {
        LOGTRIGGER::RoleAdd(r) => r,
        LOGTRIGGER::RoleRemove(r) => r,
        _ => 0,
    }
}

/// The trigger's role, if it has one, is a SQL integer.
pub open spec fn trigger_ok(t: LOGTRIGGER) -> bool {
    sql_int(trigger_ref(t))
}

/// The response rows a trigger selects: same guild and kind, and for role
/// triggers the same role.
pub open spec fn response_matches(r: ResponseV, guild_id: u64, t: LOGTRIGGER) -> bool {
    &&& r.guild_id == guild_id
    &&& r.trigger == trigger_kind(t)
    &&& (t matches LOGTRIGGER::RoleAdd(_) || t matches LOGTRIGGER::RoleRemove(_)) ==> r.trigger_id == trigger_ref(t)
}

pub open spec fn first_response(rows: Seq<ResponseV>, guild_id: u64, t: LOGTRIGGER, i: int) -> bool {
    &&& 0 <= i < rows.len()
    &&& response_matches(rows[i], guild_id, t)
    &&& forall|j: int| 0 <= j < i ==> !response_matches(#[trigger] rows[j], guild_id, t)
}

/// The key of the first response the trigger selects, if any.
pub open spec fn response_for(rows: Seq<ResponseV>, guild_id: u64, t: LOGTRIGGER) -> Option<u64> {
    if exists|i: int| 0 <= i < rows.len() && response_matches(#[trigger] rows[i], guild_id, t) {
        Some(rows[choose|i: int| first_response(rows, guild_id, t, i)].id)
    } else {
        None
    }
}

pub proof fn lemma_response_for(rows: Seq<ResponseV>, guild_id: u64, t: LOGTRIGGER, i: int)
    requires
        first_response(rows, guild_id, t, i),
    ensures
        response_for(rows, guild_id, t) == Some(rows[i].id),
{
    let k = choose|k: int| first_response(rows, guild_id, t, k);
    assert(first_response(rows, guild_id, t, k));
    if k < i {
        assert(!response_matches(rows[k], guild_id, t));
    } else if i < k {
        assert(!response_matches(rows[i], guild_id, t));
    }
}

/// The key the next response gets.
pub open spec fn next_response_id(rows: Seq<ResponseV>) -> u64 {
    if rows.len() == 0 {
        1
    } else {
        (rows.last().id + 1) as u64
    }
}

pub open spec fn response_room(rows: Seq<ResponseV>) -> bool {
    rows.len() == 0 || rows.last().id < I64_MAX
}

/// The key the next condition gets.
pub open spec fn next_condition_id(rows: Seq<ConditionRow>) -> u64 {
    if rows.len() == 0 {
        1
    } else {
        (rows.last().id + 1) as u64
    }
}

pub open spec fn condition_room(rows: Seq<ConditionRow>) -> bool {
    rows.len() == 0 || rows.last().id < I64_MAX
}

/// The row a new response is stored as.
pub open spec fn new_response(id: u64, guild_id: u64, t: LOGTRIGGER, channel: u64, message: Seq<char>) -> ResponseV {
    ResponseV {
        id,
        guild_id,
        trigger: trigger_kind(t),
        trigger_id: trigger_ref(t),
        response_channel: channel,
        response_message: message,
    }
}

pub open spec fn response_kept(guild_id: u64, t: LOGTRIGGER) -> spec_fn(ResponseV) -> bool {
    |r: ResponseV| !response_matches(r, guild_id, t)
}

pub open spec fn condition_kept(id: u64) -> spec_fn(ConditionRow) -> bool {
    |c: ConditionRow| c.id != id
}

/// Some condition refers to a response the trigger selects.
pub open spec fn conditions_block(v: DbView, guild_id: u64, t: LOGTRIGGER) -> bool {
    exists|i: int, j: int|
        0 <= i < v.responses.len() && 0 <= j < v.conditions.len() && response_matches(#[trigger] v.responses[i], guild_id, t)
            && (#[trigger] v.conditions[j]).rolelog_id == v.responses[i].id
}

/// A guild's responses as listed: channel, message and trigger.
pub open spec fn listed_response(guild_id: u64) -> spec_fn(ResponseV) -> Option<(u64, Seq<char>, LOGTRIGGER)> {
    |r: ResponseV| if r.guild_id == guild_id {
        Some((r.response_channel, r.response_message, trigger_of(r.trigger, r.trigger_id)))
    } else {
        None
    }
}

pub open spec fn listed_responses_view(s: Seq<(u64, String, LOGTRIGGER)>) -> Seq<(u64, Seq<char>, LOGTRIGGER)> {
    s.map_values(|e: (u64, String, LOGTRIGGER)| (e.0, e.1@, e.2))
}

/// A response's conditions: the role, whether it is inverted, and the
/// condition's key.
pub open spec fn listed_condition(log_id: u64) -> spec_fn(ConditionRow) -> Option<(LOGCONDITION, bool, u64)> {
    |c: ConditionRow| if c.rolelog_id == log_id {
        Some((LOGCONDITION::HasRole(c.acomp_id), c.invert, c.id))
    } else {
        None
    }
}

/// The response with key `log_id` in the guild.
pub open spec fn response_with_id(rows: Seq<ResponseV>, guild_id: u64, log_id: u64) -> bool {
    exists|i: int| 0 <= i < rows.len() && (#[trigger] rows[i]).id == log_id && rows[i].guild_id == guild_id
}

pub open spec fn response_of(rows: Seq<ResponseV>, log_id: u64) -> ResponseV {
    rows[choose|i: int| 0 <= i < rows.len() && rows[i].id == log_id]
}

impl DbView {
    pub open spec fn with_responses(self, responses: Seq<ResponseV>) -> DbView {
        DbView { responses, ..self }
    }

    pub open spec fn with_conditions(self, conditions: Seq<ConditionRow>) -> DbView {
        DbView { conditions, ..self }
    }
}

pub proof fn lemma_response_of(rows: Seq<ResponseV>, log_id: u64, i: int)
    requires
        keys_increasing(response_keys(rows)),
        0 <= i < rows.len(),
        rows[i].id == log_id,
    ensures
        response_of(rows, log_id) == rows[i],
{
    let k = choose|k: int| 0 <= k < rows.len() && rows[k].id == log_id;
    assert(0 <= k < rows.len() && rows[k].id == log_id);
    if k < i {
        assert(response_keys(rows)[k] < response_keys(rows)[i]);
    } else if i < k {
        assert(response_keys(rows)[i] < response_keys(rows)[k]);
    }
}

pub proof fn lemma_filter_responses_increasing(s: Seq<ResponseV>, p: spec_fn(ResponseV) -> bool)
    requires
        keys_increasing(response_keys(s)),
    ensures
        keys_increasing(response_keys(s.filter(p))),
    decreases s.len(),
{
    reveal(Seq::filter);
    if s.len() > 0 {
        let d = s.drop_last();
        assert(response_keys(d) =~= response_keys(s).drop_last());
        lemma_filter_responses_increasing(d, p);
        let f = d.filter(p);
        if p(s.last()) {
            assert forall|k: int| 0 <= k < f.len() implies f[k].id < s.last().id by {
                d.lemma_filter_contains_rev(p, f[k]);
                let j = choose|j: int| 0 <= j < d.len() && d[j] == f[k];
                assert(response_keys(s)[j] < response_keys(s)[s.len() - 1]);
            }
            let g = f.push(s.last());
            assert(s.filter(p) == g);
            assert forall|i: int, j: int| 0 <= i < j < g.len() implies response_keys(g)[i] < response_keys(g)[j] by {
                if j < f.len() {
                    assert(response_keys(f)[i] < response_keys(f)[j]);
                }
            }
        }
    }
}

pub proof fn lemma_filter_conditions_increasing(s: Seq<ConditionRow>, p: spec_fn(ConditionRow) -> bool)
    requires
        keys_increasing(condition_keys(s)),
    ensures
        keys_increasing(condition_keys(s.filter(p))),
    decreases s.len(),
{
    reveal(Seq::filter);
    if s.len() > 0 {
        let d = s.drop_last();
        assert(condition_keys(d) =~= condition_keys(s).drop_last());
        lemma_filter_conditions_increasing(d, p);
        let f = d.filter(p);
        if p(s.last()) {
            assert forall|k: int| 0 <= k < f.len() implies f[k].id < s.last().id by {
                d.lemma_filter_contains_rev(p, f[k]);
                let j = choose|j: int| 0 <= j < d.len() && d[j] == f[k];
                assert(condition_keys(s)[j] < condition_keys(s)[s.len() - 1]);
            }
            let g = f.push(s.last());
            assert(s.filter(p) == g);
            assert forall|i: int, j: int| 0 <= i < j < g.len() implies condition_keys(g)[i] < condition_keys(g)[j] by {
                if j < f.len() {
                    assert(condition_keys(f)[i] < condition_keys(f)[j]);
                }
            }
        }
    }
}

fn matches_exec(r: &ResponseRow, guild_id: u64, t: LOGTRIGGER) -> (res: bool)
    ensures
        res == response_matches(r@, guild_id, t),
{
    if r.guild_id != guild_id || r.trigger != t.toint() {
        return false;
    }
    match t {
        LOGTRIGGER::RoleAdd(role) => r.trigger_id == role,
        LOGTRIGGER::RoleRemove(role) => r.trigger_id == role,
        _ => true,
    }
}

fn trigger_ref_exec(t: LOGTRIGGER) -> (res: u64)
    ensures
        res == trigger_ref(t),
{
    match t {
        LOGTRIGGER::RoleAdd(r) => r,
        LOGTRIGGER::RoleRemove(r) => r,
        _ => 0,
    }
}

impl Database {
    /// Adds an automatic response; answers its key.
    pub fn add_response(
        &mut self,
        guild_id: u64,
        log_type: LOGTRIGGER,
        response_channel: u64,
        response_message: &str,
    ) -> (res: Result<u64, DbError>)
        requires
            old(self)@.wf(),
            response_room(old(self)@.responses),
        ensures
            final(self)@.wf(),
            !(sql_int(guild_id) && trigger_ok(log_type) && sql_int(response_channel)) ==> res == Err::<u64, DbError>(
                DbError::ToSqlConversion,
            ) && final(self)@ == old(self)@,
            sql_int(guild_id) && trigger_ok(log_type) && sql_int(response_channel) && !has_guild_row(old(self)@.guilds, guild_id)
                ==> res == Err::<u64, DbError>(DbError::ForeignKeyConstraint) && final(self)@ == old(self)@,
            sql_int(guild_id) && trigger_ok(log_type) && sql_int(response_channel) && has_guild_row(old(self)@.guilds, guild_id)
                ==> res == Ok::<u64, DbError>(next_response_id(old(self)@.responses)) && final(self)@
                == old(self)@.with_responses(old(self)@.responses.push(
                new_response(next_response_id(old(self)@.responses), guild_id, log_type, response_channel, response_message@),
            )),
    {
        let role = trigger_ref_exec(log_type);
        if guild_id > I64_MAX || role > I64_MAX || response_channel > I64_MAX {
            return Err(DbError::ToSqlConversion);
        }
        if !self.guild_known(guild_id) {
            return Err(DbError::ForeignKeyConstraint);
        }
        let ghost old_v = self@;
        let n = self.responses.len();
        let id: u64 = if n == 0 {
            1
        } else {
            self.responses[n - 1].id + 1
        };
        proof {
            if n > 0 {
                assert(old_v.responses[n - 1] == self.responses@[n - 1]@);
            }
        }
        self.responses.push(ResponseRow {
            id,
            guild_id,
            trigger: log_type.toint(),
            trigger_id: role,
            response_channel,
            response_message: String::from_str(response_message),
        });
        proof {
            let v = self@;
            let r2 = old_v.responses.push(new_response(id, guild_id, log_type, response_channel, response_message@));
            assert(v.responses =~= r2);
            assert(v == old_v.with_responses(r2));
            assert forall|i: int, j: int| 0 <= i < j < r2.len() implies response_keys(r2)[i] < response_keys(r2)[j] by {
                if j < old_v.responses.len() {
                    assert(response_keys(old_v.responses)[i] < response_keys(old_v.responses)[j]);
                } else if 0 < old_v.responses.len() && i < old_v.responses.len() - 1 {
                    assert(response_keys(old_v.responses)[i] < response_keys(old_v.responses)[old_v.responses.len() - 1]);
                }
            }
            assert forall|i: int| #![trigger r2[i]] 0 <= i < r2.len() implies response_row_ok(r2[i])
                && has_guild_row(v.guilds, r2[i].guild_id) by {
                if i < old_v.responses.len() {
                    assert(r2[i] == old_v.responses[i]);
                }
            }
            assert forall|k: int| 0 <= k < v.conditions.len() implies has_response_row(r2, #[trigger] v.conditions[k].rolelog_id) by {
                assert(has_response_row(old_v.responses, old_v.conditions[k].rolelog_id));
                let j = choose|j: int| 0 <= j < old_v.responses.len() && #[trigger] old_v.responses[j].id == old_v.conditions[k].rolelog_id;
                assert(r2[j] == old_v.responses[j]);
            }
        }
        Ok(id)
    }

    /// The key of the response the trigger selects in the guild (the first one).
    pub fn has_response(&mut self, guild_id: u64, log_type: LOGTRIGGER) -> (res: Option<u64>)
        requires
            old(self)@.wf(),
            sql_int(guild_id),
            trigger_ok(log_type),
        ensures
            final(self)@ == old(self)@,
            res == response_for(old(self)@.responses, guild_id, log_type),
    {
        let mut i: usize = 0;
        while i < self.responses.len()
            invariant
                i <= self.responses.len(),
                forall|j: int| 0 <= j < i ==> !response_matches(#[trigger] self@.responses[j], guild_id, log_type),
            decreases self.responses.len() - i,
        {
            proof {
                assert(self@.responses[i as int] == self.responses@[i as int]@);
            }
            if matches_exec(&self.responses[i], guild_id, log_type) {
                proof {
                    lemma_response_for(self@.responses, guild_id, log_type, i as int);
                }
                return Some(self.responses[i].id);
            }
            i += 1;
        }
        None
    }

    /// The channel and message of a guild's response.
    pub fn get_response(&self, guild_id: u64, log_id: u64) -> (res: Result<(u64, String), DbError>)
        requires
            self@.wf(),
        ensures
            !(sql_int(guild_id) && sql_int(log_id)) ==> res is Err && res->Err_0 == DbError::ToSqlConversion,
            sql_int(guild_id) && sql_int(log_id) && !response_with_id(self@.responses, guild_id, log_id)
                ==> res is Err && res->Err_0 == DbError::QueryReturnedNoRows,
            sql_int(guild_id) && sql_int(log_id) && response_with_id(self@.responses, guild_id, log_id)
                ==> res is Ok && res->Ok_0.0 == response_of(self@.responses, log_id).response_channel
                && res->Ok_0.1@ == response_of(self@.responses, log_id).response_message,
    {
        if guild_id > I64_MAX || log_id > I64_MAX {
            return Err(DbError::ToSqlConversion);
        }
        let mut i: usize = 0;
        while i < self.responses.len()
            invariant
                self@.wf(),
                i <= self.responses.len(),
                forall|j: int| 0 <= j < i ==> !((#[trigger] self@.responses[j]).id == log_id
                    && self@.responses[j].guild_id == guild_id),
            decreases self.responses.len() - i,
        {
            let r = &self.responses[i];
            proof {
                assert(self@.responses[i as int] == r@);
            }
            if r.id == log_id && r.guild_id == guild_id {
                proof {
                    lemma_response_of(self@.responses, log_id, i as int);
                }
                return Ok((r.response_channel, r.response_message.clone()));
            }
            i += 1;
        }
        Err(DbError::QueryReturnedNoRows)
    }

    /// A guild's responses: channel, message and trigger, in key order.
    pub fn get_all_responses(&self, guild_id: u64) -> (res: Result<Vec<(u64, String, LOGTRIGGER)>, DbError>)
        requires
            self@.wf(),
        ensures
            !sql_int(guild_id) ==> res is Err && res->Err_0 == DbError::ToSqlConversion,
            sql_int(guild_id) ==> res is Ok && listed_responses_view(res->Ok_0@)
                == self@.responses.filter_map(listed_response(guild_id)),
    {
        if guild_id > I64_MAX {
            return Err(DbError::ToSqlConversion);
        }
        let mut res: Vec<(u64, String, LOGTRIGGER)> = Vec::new();
        let mut i: usize = 0;
        while i < self.responses.len()
            invariant
                self@.wf(),
                i <= self.responses.len(),
                listed_responses_view(res@) == self@.responses.take(i as int).filter_map(listed_response(guild_id)),
            decreases self.responses.len() - i,
        {
            proof {
                self@.responses.lemma_filter_map_take_succ(listed_response(guild_id), i as int);
            }
            let r = &self.responses[i];
            proof {
                assert(self@.responses[i as int] == r@);
                assert(response_row_ok(r@));
            }
            if r.guild_id == guild_id {
                let ghost before = res@;
                res.push((r.response_channel, r.response_message.clone(), LOGTRIGGER::fromint(r.trigger, r.trigger_id)));
                proof {
                    assert(listed_responses_view(res@) =~= listed_responses_view(before).push(
                        (r.response_channel, r@.response_message, trigger_of(r.trigger, r.trigger_id)),
                    ));
                }
            }
            i += 1;
        }
        proof {
            assert(self@.responses.take(self.responses.len() as int) =~= self@.responses);
        }
        Ok(res)
    }

    /// Deletes the responses the trigger selects; the store refuses while a
    /// condition still refers to one of them. Answers whether any was deleted.
    pub fn remove_response(&mut self, guild_id: u64, log_type: LOGTRIGGER) -> (res: Result<bool, DbError>)
        requires
            old(self)@.wf(),
        ensures
            final(self)@.wf(),
            !(sql_int(guild_id) && trigger_ok(log_type)) ==> res == Err::<bool, DbError>(DbError::ToSqlConversion)
                && final(self)@ == old(self)@,
            sql_int(guild_id) && trigger_ok(log_type) && conditions_block(old(self)@, guild_id, log_type)
                ==> res == Err::<bool, DbError>(DbError::ForeignKeyConstraint) && final(self)@ == old(self)@,
            sql_int(guild_id) && trigger_ok(log_type) && !conditions_block(old(self)@, guild_id, log_type)
                ==> res == Ok::<bool, DbError>(response_for(old(self)@.responses, guild_id, log_type) is Some)
                && final(self)@ == old(self)@.with_responses(
                old(self)@.responses.filter(response_kept(guild_id, log_type)),
            ),
    {
        let role = trigger_ref_exec(log_type);
        if guild_id > I64_MAX || role > I64_MAX {
            return Err(DbError::ToSqlConversion);
        }
        let ghost old_v = self@;
        let ghost p = response_kept(guild_id, log_type);
        let mut kept: Vec<ResponseRow> = Vec::new();
        let mut found = false;
        let mut i: usize = 0;
        while i < self.responses.len()
            invariant
                self@ == old_v,
                old_v.wf(),
                sql_int(guild_id),
                trigger_ok(log_type),
                i <= self.responses.len(),
                p == response_kept(guild_id, log_type),
                responses_view(kept@) == old_v.responses.take(i as int).filter(p),
                found == exists|j: int| 0 <= j < i && response_matches(#[trigger] old_v.responses[j], guild_id, log_type),
                forall|j: int, k: int| 0 <= j < i && 0 <= k < old_v.conditions.len() && response_matches(#[trigger] old_v.responses[j], guild_id, log_type)
                    ==> (#[trigger] old_v.conditions[k]).rolelog_id != old_v.responses[j].id,
            decreases self.responses.len() - i,
        {
            let r = &self.responses[i];
            proof {
                assert(old_v.responses[i as int] == r@);
                assert(old_v.responses.take(i + 1) =~= old_v.responses.take(i as int).push(r@));
                old_v.responses.take(i as int).lemma_filter_push(r@, p);
            }
            if matches_exec(r, guild_id, log_type) {
                found = true;
                let mut k: usize = 0;
                while k < self.conditions.len()
                    invariant
                        self@ == old_v,
                        k <= self.conditions.len(),
                        i < self.responses.len(),
                        r.id == old_v.responses[i as int].id,
                        old_v.wf(),
                        sql_int(guild_id),
                        trigger_ok(log_type),
                        response_matches(old_v.responses[i as int], guild_id, log_type),
                        forall|q: int| 0 <= q < k ==> (#[trigger] old_v.conditions[q]).rolelog_id != old_v.responses[i as int].id,
                    decreases self.conditions.len() - k,
                {
                    if self.conditions[k].rolelog_id == r.id {
                        proof {
                            assert(response_matches(old_v.responses[i as int], guild_id, log_type));
                            assert(old_v.conditions[k as int].rolelog_id == old_v.responses[i as int].id);
                        }
                        return Err(DbError::ForeignKeyConstraint);
                    }
                    k += 1;
                }
            } else {
                let ghost before = kept@;
                kept.push(ResponseRow {
                    id: r.id,
                    guild_id: r.guild_id,
                    trigger: r.trigger,
                    trigger_id: r.trigger_id,
                    response_channel: r.response_channel,
                    response_message: r.response_message.clone(),
                });
                proof {
                    assert(responses_view(kept@) =~= responses_view(before).push(r@));
                }
            }
            i += 1;
        }
        proof {
            assert(old_v.responses.take(self.responses.len() as int) =~= old_v.responses);
            if found {
                let j = choose|j: int| 0 <= j < old_v.responses.len() && response_matches(#[trigger] old_v.responses[j], guild_id, log_type);
                assert(exists|i: int| 0 <= i < old_v.responses.len() && response_matches(#[trigger] old_v.responses[i], guild_id, log_type));
            }
        }
        self.responses = kept;
        proof {
            let n = self@;
            let f = old_v.responses.filter(p);
            assert(n == old_v.with_responses(f));
            lemma_filter_responses_increasing(old_v.responses, p);
            assert forall|k: int| #![trigger f[k]] 0 <= k < f.len() implies response_row_ok(f[k])
                && has_guild_row(n.guilds, f[k].guild_id) by {
                lemma_filter_keeps(old_v.responses, p, k);
                let j = choose|j: int| 0 <= j < old_v.responses.len() && old_v.responses[j] == f[k];
                assert(response_row_ok(old_v.responses[j]));
                assert(has_guild_row(old_v.guilds, old_v.responses[j].guild_id));
            }
            assert forall|k: int| 0 <= k < n.conditions.len() implies has_response_row(f, #[trigger] n.conditions[k].rolelog_id) by {
                assert(has_response_row(old_v.responses, old_v.conditions[k].rolelog_id));
                let j = choose|j: int| 0 <= j < old_v.responses.len() && #[trigger] old_v.responses[j].id == old_v.conditions[k].rolelog_id;
                assert(p(old_v.responses[j]));
                lemma_filter_has(old_v.responses, p, j);
                let q = choose|q: int| 0 <= q < f.len() && f[q] == old_v.responses[j];
                assert(f[q].id == old_v.conditions[k].rolelog_id);
            }
            if !found {
                assert(response_for(old_v.responses, guild_id, log_type) is None);
            }
        }
        Ok(found)
    }

    /// Adds a condition to a response: the member must (or, inverted, must not)
    /// have the role.
    pub fn add_response_condition(&mut self, log_id: u64, log_type: LOGCONDITION, invert: bool)
        requires
            old(self)@.wf(),
            sql_int(log_id),
            log_type matches LOGCONDITION::HasRole(r) && sql_int(r),
            has_response_row(old(self)@.responses, log_id),
            condition_room(old(self)@.conditions),
        ensures
            final(self)@.wf(),
            final(self)@ == old(self)@.with_conditions(old(self)@.conditions.push(ConditionRow {
                id: next_condition_id(old(self)@.conditions),
                rolelog_id: log_id,
                cond_type: 0,
                acomp_id: match log_type { LOGCONDITION::HasRole(r) => r },
                invert,
            })),
    {
        let ghost old_v = self@;
        let role = match log_type {
            LOGCONDITION::HasRole(r) => r,
        };
        let n = self.conditions.len();
        let id: u64 = if n == 0 {
            1
        } else {
            self.conditions[n - 1].id + 1
        };
        self.conditions.push(ConditionRow { id, rolelog_id: log_id, cond_type: log_type.toint(), acomp_id: role, invert });
        proof {
            let v = self@;
            let c2 = v.conditions;
            assert(v == old_v.with_conditions(c2));
            assert forall|i: int, j: int| 0 <= i < j < c2.len() implies condition_keys(c2)[i] < condition_keys(c2)[j] by {
                if j < old_v.conditions.len() {
                    assert(condition_keys(old_v.conditions)[i] < condition_keys(old_v.conditions)[j]);
                } else if 0 < old_v.conditions.len() && i < old_v.conditions.len() - 1 {
                    assert(condition_keys(old_v.conditions)[i] < condition_keys(old_v.conditions)[old_v.conditions.len() - 1]);
                }
            }
            assert forall|i: int| #![trigger c2[i]] 0 <= i < c2.len() implies condition_row_ok(c2[i])
                && has_response_row(v.responses, c2[i].rolelog_id) by {
                if i < old_v.conditions.len() {
                    assert(c2[i] == old_v.conditions[i]);
                }
            }
        }
    }

    /// Deletes a condition by its key.
    pub fn remove_response_condition(&mut self, condition_id: u64)
        requires
            old(self)@.wf(),
            sql_int(condition_id),
        ensures
            final(self)@.wf(),
            final(self)@ == old(self)@.with_conditions(old(self)@.conditions.filter(condition_kept(condition_id))),
    {
        let ghost old_v = self@;
        let ghost p = condition_kept(condition_id);
        let mut kept: Vec<ConditionRow> = Vec::new();
        let mut i: usize = 0;
        while i < self.conditions.len()
            invariant
                self@ == old_v,
                i <= self.conditions.len(),
                p == condition_kept(condition_id),
                kept@ == old_v.conditions.take(i as int).filter(p),
            decreases self.conditions.len() - i,
        {
            let c = self.conditions[i];
            proof {
                assert(old_v.conditions.take(i + 1) =~= old_v.conditions.take(i as int).push(c));
                old_v.conditions.take(i as int).lemma_filter_push(c, p);
            }
            if c.id != condition_id {
                kept.push(c);
            }
            i += 1;
        }
        proof {
            assert(old_v.conditions.take(self.conditions.len() as int) =~= old_v.conditions);
        }
        self.conditions = kept;
        proof {
            let n = self@;
            let f = old_v.conditions.filter(p);
            assert(n == old_v.with_conditions(f));
            lemma_filter_conditions_increasing(old_v.conditions, p);
            assert forall|k: int| #![trigger f[k]] 0 <= k < f.len() implies condition_row_ok(f[k])
                && has_response_row(n.responses, f[k].rolelog_id) by {
                lemma_filter_keeps(old_v.conditions, p, k);
                let j = choose|j: int| 0 <= j < old_v.conditions.len() && old_v.conditions[j] == f[k];
                assert(condition_row_ok(old_v.conditions[j]));
                assert(has_response_row(old_v.responses, old_v.conditions[j].rolelog_id));
            }
        }
    }

    /// A response's conditions in key order: the role, whether the condition
    /// is inverted, and the condition's key.
    pub fn get_response_conditions(&self, log_id: u64) -> (res: Vec<(LOGCONDITION, bool, u64)>)
        requires
            self@.wf(),
            sql_int(log_id),
        ensures
            res@ == self@.conditions.filter_map(listed_condition(log_id)),
    {
        let mut res: Vec<(LOGCONDITION, bool, u64)> = Vec::new();
        let mut i: usize = 0;
        while i < self.conditions.len()
            invariant
                self@.wf(),
                i <= self.conditions.len(),
                res@ == self@.conditions.take(i as int).filter_map(listed_condition(log_id)),
            decreases self.conditions.len() - i,
        {
            proof {
                self@.conditions.lemma_filter_map_take_succ(listed_condition(log_id), i as int);
            }
            let c = self.conditions[i];
            proof {
                assert(condition_row_ok(self@.conditions[i as int]));
            }
            if c.rolelog_id == log_id {
                res.push((LOGCONDITION::fromint(c.cond_type, c.acomp_id), c.invert, c.id));
            }
            i += 1;
        }
        proof {
            assert(self@.conditions.take(self.conditions.len() as int) =~= self@.conditions);
        }
        res
    }
}


impl Database {
    /// Whether a condition refers to a response the trigger selects (so the
    /// store refuses to remove those responses).
    pub(crate) fn conditions_block_exec(&self, guild_id: u64, t: LOGTRIGGER) -> (res: bool)
        ensures
            res == conditions_block(self@, guild_id, t),
    {
        let ghost v = self@;
        let mut i: usize = 0;
        while i < self.responses.len()
            invariant
                v == self@,
                i <= self.responses.len(),
                forall|a: int, b: int| 0 <= a < i && 0 <= b < v.conditions.len() && response_matches(#[trigger] v.responses[a], guild_id, t)
                    ==> (#[trigger] v.conditions[b]).rolelog_id != v.responses[a].id,
            decreases self.responses.len() - i,
        {
            assert(v.responses[i as int] == self.responses@[i as int]@);
            if matches_exec(&self.responses[i], guild_id, t) {
                let mut k: usize = 0;
                while k < self.conditions.len()
                    invariant
                        v == self@,
                        i < self.responses.len(),
                        k <= self.conditions.len(),
                        v.responses[i as int].id == self.responses@[i as int].id,
                        response_matches(v.responses[i as int], guild_id, t),
                        forall|b: int| 0 <= b < k ==> (#[trigger] v.conditions[b]).rolelog_id != v.responses[i as int].id,
                    decreases self.conditions.len() - k,
                {
                    if self.conditions[k].rolelog_id == self.responses[i].id {
                        assert(v.conditions[k as int].rolelog_id == v.responses[i as int].id);
                        return true;
                    }
                    k += 1;
                }
            }
            i += 1;
        }
        false
    }

    /// Whether another response, and another condition, still get a key.
    pub(crate) fn has_response_room(&self) -> (res: (bool, bool))
        ensures
            res.0 == response_room(self@.responses),
            res.1 == condition_room(self@.conditions),
    {
        let nr = self.responses.len();
        let r = nr == 0 || self.responses[nr - 1].id < I64_MAX;
        proof {
            if nr > 0 {
                assert(self@.responses.last() == self.responses@[nr - 1]@);
            }
        }
        let nc = self.conditions.len();
        let c = nc == 0 || self.conditions[nc - 1].id < I64_MAX;
        (r, c)
    }
}

} // verus!
