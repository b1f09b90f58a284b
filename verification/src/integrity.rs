use vstd::prelude::*;

use crate::database::{
    AliasRow, ChannelRow, ConditionRow, Database, DbView, GuildRow, ListRow, MembershipRow, ProposalRow,
    ResponseRow, SettingRow, I64_MAX, aliases_sorted, aliases_view, condition_keys, condition_row_ok,
    guild_row_ok, has_guild_row, has_list_row, has_response_row, keys_increasing, list_keys, list_row_ok,
    lists_view, proposal_keys, proposal_row_ok, response_keys, response_row_ok, responses_view,
    aliases_unique, channels_unique, guilds_unique, memberships_unique, settings_unique,
};
use crate::text::str_eq;
use crate::text::{lemma_str_le_trans, str_le_exec};

verus! {

// ---------------------------------------------------------------------------
// Lookups by key
// ---------------------------------------------------------------------------

fn guild_exists(guilds: &Vec<GuildRow>, id: u64) -> (r: bool)
    ensures
        r == has_guild_row(guilds@, id),
{
    let mut i: usize = 0;
    while i < guilds.len()
        invariant
            i <= guilds.len(),
            forall|j: int| 0 <= j < i ==> (#[trigger] guilds@[j]).id != id,
        decreases guilds.len() - i,
    {
        if guilds[i].id == id {
            return true;
        }
        i += 1;
    }
    false
}

fn list_exists(lists: &Vec<ListRow>, id: u64) -> (r: bool)
    ensures
        r == has_list_row(lists_view(lists@), id),
{
    let mut i: usize = 0;
    while i < lists.len()
        invariant
            i <= lists.len(),
            forall|j: int| 0 <= j < i ==> (#[trigger] lists@[j]).id != id,
        decreases lists.len() - i,
    {
        if lists[i].id == id {
            assert(lists_view(lists@)[i as int].id == id);
            return true;
        }
        i += 1;
    }
    proof {
        assert forall|j: int| 0 <= j < lists@.len() implies #[trigger] lists_view(lists@)[j].id != id by {
            assert(lists_view(lists@)[j] == lists@[j]@);
        }
    }
    false
}

fn response_exists(responses: &Vec<ResponseRow>, id: u64) -> (r: bool)
    ensures
        r == has_response_row(responses_view(responses@), id),
{
    let mut i: usize = 0;
    while i < responses.len()
        invariant
            i <= responses.len(),
            forall|j: int| 0 <= j < i ==> (#[trigger] responses@[j]).id != id,
        decreases responses.len() - i,
    {
        if responses[i].id == id {
            assert(responses_view(responses@)[i as int].id == id);
            return true;
        }
        i += 1;
    }
    proof {
        assert forall|j: int| 0 <= j < responses@.len() implies #[trigger] responses_view(responses@)[j].id != id by {
            assert(responses_view(responses@)[j] == responses@[j]@);
        }
    }
    false
}

// ---------------------------------------------------------------------------
// One check per table
// ---------------------------------------------------------------------------

fn guilds_valid(guilds: &Vec<GuildRow>) -> (r: bool)
    ensures
        r == (forall|i: int| 0 <= i < guilds@.len() ==> guild_row_ok(#[trigger] guilds@[i])),
{
    let mut i: usize = 0;
    while i < guilds.len()
        invariant
            i <= guilds.len(),
            forall|j: int| 0 <= j < i ==> guild_row_ok(#[trigger] guilds@[j]),
        decreases guilds.len() - i,
    {
        let g = guilds[i];
        if !(g.id <= I64_MAX && g.general_cooldown <= I64_MAX && g.pingcooldown <= I64_MAX
            && 0 < g.propose_threshold && g.propose_threshold <= I64_MAX && 2 < g.propose_timeout
            && g.propose_timeout <= I64_MAX && g.log_channel <= I64_MAX) {
            return false;
        }
        i += 1;
    }
    true
}

fn lists_valid(lists: &Vec<ListRow>, guilds: &Vec<GuildRow>) -> (r: bool)
    ensures
        r == ({
            let ls = lists_view(lists@);
            &&& forall|i: int| 0 <= i < ls.len() ==> list_row_ok(#[trigger] ls[i])
            &&& forall|i: int| 0 <= i < ls.len() ==> has_guild_row(guilds@, #[trigger] ls[i].guild_id)
            &&& keys_increasing(list_keys(ls))
        }),
{
    let ghost ls = lists_view(lists@);
    let mut i: usize = 0;
    while i < lists.len()
        invariant
            i <= lists.len(),
            ls == lists_view(lists@),
            forall|j: int| 0 <= j < i ==> list_row_ok(#[trigger] ls[j]),
            forall|j: int| 0 <= j < i ==> has_guild_row(guilds@, #[trigger] ls[j].guild_id),
            forall|a: int, b: int| 0 <= a < b < i ==> ls[a].id < ls[b].id,
        decreases lists.len() - i,
    {
        assert(ls[i as int] == lists@[i as int]@);
        let l = &lists[i];
        if !(0 < l.id && l.id <= I64_MAX && l.guild_id <= I64_MAX && l.cooldown >= -1) {
            return false;
        }
        if !guild_exists(guilds, l.guild_id) {
            return false;
        }
        if i > 0 && lists[i - 1].id >= l.id {
            assert(ls[i - 1] == lists@[i - 1]@);
            assert(list_keys(ls)[i - 1] >= list_keys(ls)[i as int]);
            return false;
        }
        proof {
            if i > 0 {
                assert(ls[i - 1] == lists@[i - 1]@);
            }
        }
        i += 1;
    }
    proof {
        assert forall|a: int, b: int| 0 <= a < b < list_keys(ls).len() implies list_keys(ls)[a] < list_keys(ls)[b] by {
            assert(ls[a].id < ls[b].id);
        }
    }
    true
}

fn responses_valid(responses: &Vec<ResponseRow>, guilds: &Vec<GuildRow>) -> (r: bool)
    ensures
        r == ({
            let rs = responses_view(responses@);
            &&& forall|i: int| 0 <= i < rs.len() ==> response_row_ok(#[trigger] rs[i])
            &&& forall|i: int| 0 <= i < rs.len() ==> has_guild_row(guilds@, #[trigger] rs[i].guild_id)
            &&& keys_increasing(response_keys(rs))
        }),
{
    let ghost rs = responses_view(responses@);
    let mut i: usize = 0;
    while i < responses.len()
        invariant
            i <= responses.len(),
            rs == responses_view(responses@),
            forall|j: int| 0 <= j < i ==> response_row_ok(#[trigger] rs[j]),
            forall|j: int| 0 <= j < i ==> has_guild_row(guilds@, #[trigger] rs[j].guild_id),
            forall|a: int, b: int| 0 <= a < b < i ==> rs[a].id < rs[b].id,
        decreases responses.len() - i,
    {
        assert(rs[i as int] == responses@[i as int]@);
        let x = &responses[i];
        if !(0 < x.id && x.id <= I64_MAX && x.guild_id <= I64_MAX && x.trigger <= 3 && x.trigger_id <= I64_MAX
            && x.response_channel <= I64_MAX) {
            return false;
        }
        if !guild_exists(guilds, x.guild_id) {
            return false;
        }
        if i > 0 && responses[i - 1].id >= x.id {
            assert(rs[i - 1] == responses@[i - 1]@);
            assert(response_keys(rs)[i - 1] >= response_keys(rs)[i as int]);
            return false;
        }
        proof {
            if i > 0 {
                assert(rs[i - 1] == responses@[i - 1]@);
            }
        }
        i += 1;
    }
    proof {
        assert forall|a: int, b: int| 0 <= a < b < response_keys(rs).len() implies response_keys(rs)[a] < response_keys(rs)[b] by {
            assert(rs[a].id < rs[b].id);
        }
    }
    true
}

fn conditions_valid(conditions: &Vec<ConditionRow>, responses: &Vec<ResponseRow>) -> (r: bool)
    ensures
        r == ({
            let cs = conditions@;
            &&& forall|i: int| 0 <= i < cs.len() ==> condition_row_ok(#[trigger] cs[i])
            &&& forall|i: int| 0 <= i < cs.len() ==> has_response_row(responses_view(responses@), #[trigger] cs[i].rolelog_id)
            &&& keys_increasing(condition_keys(cs))
        }),
{
    let ghost cs = conditions@;
    let mut i: usize = 0;
    while i < conditions.len()
        invariant
            i <= conditions.len(),
            cs == conditions@,
            forall|j: int| 0 <= j < i ==> condition_row_ok(#[trigger] cs[j]),
            forall|j: int| 0 <= j < i ==> has_response_row(responses_view(responses@), #[trigger] cs[j].rolelog_id),
            forall|a: int, b: int| 0 <= a < b < i ==> cs[a].id < cs[b].id,
        decreases conditions.len() - i,
    {
        let c = conditions[i];
        if !(0 < c.id && c.id <= I64_MAX && c.rolelog_id <= I64_MAX && c.cond_type == 0 && c.acomp_id <= I64_MAX) {
            return false;
        }
        if !response_exists(responses, c.rolelog_id) {
            return false;
        }
        if i > 0 && conditions[i - 1].id >= c.id {
            assert(condition_keys(cs)[i - 1] >= condition_keys(cs)[i as int]);
            return false;
        }
        i += 1;
    }
    proof {
        assert forall|a: int, b: int| 0 <= a < b < condition_keys(cs).len() implies condition_keys(cs)[a] < condition_keys(cs)[b] by {
            assert(cs[a].id < cs[b].id);
        }
    }
    true
}

fn proposals_valid(proposals: &Vec<ProposalRow>, lists: &Vec<ListRow>) -> (r: bool)
    ensures
        r == ({
            let ps = proposals@;
            &&& forall|i: int| 0 <= i < ps.len() ==> proposal_row_ok(#[trigger] ps[i])
            &&& forall|i: int| 0 <= i < ps.len() ==> has_list_row(lists_view(lists@), #[trigger] ps[i].list_id)
            &&& keys_increasing(proposal_keys(ps))
        }),
{
    let ghost ps = proposals@;
    let mut i: usize = 0;
    while i < proposals.len()
        invariant
            i <= proposals.len(),
            ps == proposals@,
            forall|j: int| 0 <= j < i ==> proposal_row_ok(#[trigger] ps[j]),
            forall|j: int| 0 <= j < i ==> has_list_row(lists_view(lists@), #[trigger] ps[j].list_id),
            forall|a: int, b: int| 0 <= a < b < i ==> ps[a].list_id < ps[b].list_id,
        decreases proposals.len() - i,
    {
        let p = proposals[i];
        if !(p.list_id <= I64_MAX && p.channel_id <= I64_MAX && p.message_id <= I64_MAX) {
            return false;
        }
        if !list_exists(lists, p.list_id) {
            return false;
        }
        if i > 0 && proposals[i - 1].list_id >= p.list_id {
            assert(proposal_keys(ps)[i - 1] >= proposal_keys(ps)[i as int]);
            return false;
        }
        i += 1;
    }
    proof {
        assert forall|a: int, b: int| 0 <= a < b < proposal_keys(ps).len() implies proposal_keys(ps)[a] < proposal_keys(ps)[b] by {
            assert(ps[a].list_id < ps[b].list_id);
        }
    }
    true
}

fn aliases_valid(aliases: &Vec<AliasRow>, lists: &Vec<ListRow>) -> (r: bool)
    ensures
        r == ({
            let als = aliases_view(aliases@);
            &&& forall|i: int| 0 <= i < als.len() ==> crate::database::sql_int(#[trigger] als[i].list_id)
            &&& forall|i: int| 0 <= i < als.len() ==> has_list_row(lists_view(lists@), #[trigger] als[i].list_id)
            &&& aliases_sorted(als)
        }),
{
    let ghost als = aliases_view(aliases@);
    let mut i: usize = 0;
    while i < aliases.len()
        invariant
            i <= aliases.len(),
            als == aliases_view(aliases@),
            forall|j: int| 0 <= j < i ==> crate::database::sql_int(#[trigger] als[j].list_id),
            forall|j: int| 0 <= j < i ==> has_list_row(lists_view(lists@), #[trigger] als[j].list_id),
            forall|a: int, b: int| 0 <= a < b < i ==> crate::text::str_le(#[trigger] als[a].name, #[trigger] als[b].name),
        decreases aliases.len() - i,
    {
        assert(als[i as int] == aliases@[i as int]@);
        let a = &aliases[i];
        assert(als[i as int].list_id == a.list_id);
        if a.list_id > I64_MAX {
            return false;
        }
        if !list_exists(lists, a.list_id) {
            return false;
        }
        if i > 0 {
            assert(als[i - 1] == aliases@[i - 1]@);
            if !str_le_exec(aliases[i - 1].name.as_str(), a.name.as_str()) {
                assert(!crate::text::str_le(als[i - 1].name, als[i as int].name));
                return false;
            }
            proof {
                assert forall|x: int| 0 <= x < i implies crate::text::str_le(#[trigger] als[x].name, als[i as int].name) by {
                    if x < i - 1 {
                        lemma_str_le_trans(als[x].name, als[i - 1].name, als[i as int].name);
                    }
                }
            }
        }
        i += 1;
    }
    true
}

fn settings_valid(rows: &Vec<SettingRow>, guilds: &Vec<GuildRow>) -> (r: bool)
    ensures
        r == ({
            &&& forall|i: int| 0 <= i < rows@.len() ==> crate::database::sql_int(#[trigger] rows@[i].subject_id)
            &&& forall|i: int| 0 <= i < rows@.len() ==> has_guild_row(guilds@, #[trigger] rows@[i].guild_id)
        }),
{
    let mut i: usize = 0;
    while i < rows.len()
        invariant
            i <= rows.len(),
            forall|j: int| 0 <= j < i ==> crate::database::sql_int(#[trigger] rows@[j].subject_id),
            forall|j: int| 0 <= j < i ==> has_guild_row(guilds@, #[trigger] rows@[j].guild_id),
        decreases rows.len() - i,
    {
        if rows[i].subject_id > I64_MAX || !guild_exists(guilds, rows[i].guild_id) {
            return false;
        }
        i += 1;
    }
    true
}

fn memberships_valid(rows: &Vec<MembershipRow>, lists: &Vec<ListRow>) -> (r: bool)
    ensures
        r == ({
            &&& forall|i: int| 0 <= i < rows@.len() ==> crate::database::sql_int(#[trigger] rows@[i].user_id)
            &&& forall|i: int| 0 <= i < rows@.len() ==> has_list_row(lists_view(lists@), #[trigger] rows@[i].list_id)
        }),
{
    let mut i: usize = 0;
    while i < rows.len()
        invariant
            i <= rows.len(),
            forall|j: int| 0 <= j < i ==> crate::database::sql_int(#[trigger] rows@[j].user_id),
            forall|j: int| 0 <= j < i ==> has_list_row(lists_view(lists@), #[trigger] rows@[j].list_id),
        decreases rows.len() - i,
    {
        if rows[i].user_id > I64_MAX || !list_exists(lists, rows[i].list_id) {
            return false;
        }
        i += 1;
    }
    true
}

fn channels_valid(rows: &Vec<ChannelRow>) -> (r: bool)
    ensures
        r == (forall|i: int| 0 <= i < rows@.len() ==> crate::database::sql_int(#[trigger] rows@[i].channel_id)),
{
    let mut i: usize = 0;
    while i < rows.len()
        invariant
            i <= rows.len(),
            forall|j: int| 0 <= j < i ==> crate::database::sql_int(#[trigger] rows@[j].channel_id),
        decreases rows.len() - i,
    {
        if rows[i].channel_id > I64_MAX {
            return false;
        }
        i += 1;
    }
    true
}

fn guilds_distinct(rows: &Vec<GuildRow>) -> (r: bool)
    ensures
        r == guilds_unique(rows@),
{
    let ghost v = rows@;
    let mut j: usize = 0;
    while j < rows.len()
        invariant
            j <= rows.len(),
            v == rows@,
            forall|a: int, b: int| 0 <= a < b < j ==> !((v[a].id == v[b].id)),
        decreases rows.len() - j,
    {
        let mut i: usize = 0;
        while i < j
            invariant
                i <= j < rows.len(),
                v == rows@,
                forall|a: int, b: int| 0 <= a < b < j ==> !((v[a].id == v[b].id)),
                forall|a: int| 0 <= a < i ==> !((v[a].id == v[j as int].id)),
            decreases j - i,
        {
            if rows[i].id == rows[j].id {
                return false;
            }
            i += 1;
        }
        j += 1;
    }
    proof {
        assert forall|a: int, b: int| 0 <= a < b < v.len() implies !((#[trigger] v[a].id == #[trigger] v[b].id)) by {}
    }
    true
}

fn memberships_distinct(rows: &Vec<MembershipRow>) -> (r: bool)
    ensures
        r == memberships_unique(rows@),
{
    let ghost v = rows@;
    let mut j: usize = 0;
    while j < rows.len()
        invariant
            j <= rows.len(),
            v == rows@,
            forall|a: int, b: int| 0 <= a < b < j ==> !((v[a].user_id == v[b].user_id && v[a].list_id == v[b].list_id)),
        decreases rows.len() - j,
    {
        let mut i: usize = 0;
        while i < j
            invariant
                i <= j < rows.len(),
                v == rows@,
                forall|a: int, b: int| 0 <= a < b < j ==> !((v[a].user_id == v[b].user_id && v[a].list_id == v[b].list_id)),
                forall|a: int| 0 <= a < i ==> !((v[a].user_id == v[j as int].user_id && v[a].list_id == v[j as int].list_id)),
            decreases j - i,
        {
            if rows[i].user_id == rows[j].user_id && rows[i].list_id == rows[j].list_id {
                return false;
            }
            i += 1;
        }
        j += 1;
    }
    proof {
        assert forall|a: int, b: int| 0 <= a < b < v.len() implies !((#[trigger] v[a].user_id == #[trigger] v[b].user_id && #[trigger] v[a].list_id == #[trigger] v[b].list_id)) by {}
    }
    true
}

fn settings_distinct(rows: &Vec<SettingRow>) -> (r: bool)
    ensures
        r == settings_unique(rows@),
{
    let ghost v = rows@;
    let mut j: usize = 0;
    while j < rows.len()
        invariant
            j <= rows.len(),
            v == rows@,
            forall|a: int, b: int| 0 <= a < b < j ==> !((v[a].subject_id == v[b].subject_id)),
        decreases rows.len() - j,
    {
        let mut i: usize = 0;
        while i < j
            invariant
                i <= j < rows.len(),
                v == rows@,
                forall|a: int, b: int| 0 <= a < b < j ==> !((v[a].subject_id == v[b].subject_id)),
                forall|a: int| 0 <= a < i ==> !((v[a].subject_id == v[j as int].subject_id)),
            decreases j - i,
        {
            if rows[i].subject_id == rows[j].subject_id {
                return false;
            }
            i += 1;
        }
        j += 1;
    }
    proof {
        assert forall|a: int, b: int| 0 <= a < b < v.len() implies !((#[trigger] v[a].subject_id == #[trigger] v[b].subject_id)) by {}
    }
    true
}

fn channels_distinct(rows: &Vec<ChannelRow>) -> (r: bool)
    ensures
        r == channels_unique(rows@),
{
    let ghost v = rows@;
    let mut j: usize = 0;
    while j < rows.len()
        invariant
            j <= rows.len(),
            v == rows@,
            forall|a: int, b: int| 0 <= a < b < j ==> !((v[a].channel_id == v[b].channel_id)),
        decreases rows.len() - j,
    {
        let mut i: usize = 0;
        while i < j
            invariant
                i <= j < rows.len(),
                v == rows@,
                forall|a: int, b: int| 0 <= a < b < j ==> !((v[a].channel_id == v[b].channel_id)),
                forall|a: int| 0 <= a < i ==> !((v[a].channel_id == v[j as int].channel_id)),
            decreases j - i,
        {
            if rows[i].channel_id == rows[j].channel_id {
                return false;
            }
            i += 1;
        }
        j += 1;
    }
    proof {
        assert forall|a: int, b: int| 0 <= a < b < v.len() implies !((#[trigger] v[a].channel_id == #[trigger] v[b].channel_id)) by {}
    }
    true
}

fn aliases_distinct(rows: &Vec<AliasRow>) -> (r: bool)
    ensures
        r == aliases_unique(aliases_view(rows@)),
{
    let ghost v = aliases_view(rows@);
    let mut j: usize = 0;
    while j < rows.len()
        invariant
            j <= rows.len(),
            v == aliases_view(rows@),
            forall|a: int, b: int| 0 <= a < b < j ==> !((v[a].list_id == v[b].list_id && v[a].name == v[b].name)),
        decreases rows.len() - j,
    {
        let mut i: usize = 0;
        while i < j
            invariant
                i <= j < rows.len(),
                v == aliases_view(rows@),
                forall|a: int, b: int| 0 <= a < b < j ==> !((v[a].list_id == v[b].list_id && v[a].name == v[b].name)),
                forall|a: int| 0 <= a < i ==> !((v[a].list_id == v[j as int].list_id && v[a].name == v[j as int].name)),
            decreases j - i,
        {
            proof {
                assert(v[i as int] == rows@[i as int]@ && v[j as int] == rows@[j as int]@);
            }
            if rows[i].list_id == rows[j].list_id && str_eq(rows[i].name.as_str(), rows[j].name.as_str()) {
                assert(v[i as int].list_id == v[j as int].list_id && v[i as int].name == v[j as int].name);
                return false;
            }
            i += 1;
        }
        j += 1;
    }
    proof {
        assert forall|a: int, b: int| 0 <= a < b < v.len() implies !((#[trigger] v[a].list_id == #[trigger] v[b].list_id && #[trigger] v[a].name == #[trigger] v[b].name)) by {}
    }
    true
}

impl Database {
    /// An empty store.
    pub fn new() -> (db: Database)
        ensures
            db@.wf(),
            db@ == (DbView {
                guilds: Seq::empty(),
                aliases: Seq::empty(),
                memberships: Seq::empty(),
                lists: Seq::empty(),
                roles: Seq::empty(),
                users: Seq::empty(),
                channels: Seq::empty(),
                responses: Seq::empty(),
                conditions: Seq::empty(),
                proposals: Seq::empty(),
            }),
    {
        let db = Database {
            guilds: Vec::new(),
            aliases: Vec::new(),
            memberships: Vec::new(),
            lists: Vec::new(),
            role_settings: Vec::new(),
            user_settings: Vec::new(),
            channel_settings: Vec::new(),
            responses: Vec::new(),
            conditions: Vec::new(),
            proposals: Vec::new(),
        };
        proof {
            assert(aliases_view(db.aliases@) =~= Seq::empty());
            assert(lists_view(db.lists@) =~= Seq::empty());
            assert(responses_view(db.responses@) =~= Seq::empty());
        }
        db
    }

    /// Whether the rows form a store the other operations accept: what a store
    /// read back from disk is checked with.
    pub fn well_formed(&self) -> (r: bool)
        ensures
            r == self@.wf(),
    {
        let a = guilds_valid(&self.guilds);
        let b = lists_valid(&self.lists, &self.guilds);
        let c = responses_valid(&self.responses, &self.guilds);
        let d = conditions_valid(&self.conditions, &self.responses);
        let e = proposals_valid(&self.proposals, &self.lists);
        let f = aliases_valid(&self.aliases, &self.lists);
        let g = memberships_valid(&self.memberships, &self.lists);
        let h = settings_valid(&self.role_settings, &self.guilds);
        let k = settings_valid(&self.user_settings, &self.guilds);
        let l = channels_valid(&self.channel_settings);
        let u = guilds_distinct(&self.guilds) && aliases_distinct(&self.aliases)
            && memberships_distinct(&self.memberships) && settings_distinct(&self.role_settings)
            && settings_distinct(&self.user_settings) && channels_distinct(&self.channel_settings);
        let r = a && b && c && d && e && f && g && h && k && l && u;
        proof {
            let v = self@;
            if r {
                assert(v.wf());
            } else {
                if !a { assert(!v.wf()) by { assert(v.guilds == self.guilds@); } }
                if !b { assert(!v.wf()) by { assert(v.lists == lists_view(self.lists@)); } }
                if !c { assert(!v.wf()) by { assert(v.responses == responses_view(self.responses@)); } }
                if !d { assert(!v.wf()) by { assert(v.conditions == self.conditions@); } }
                if !e { assert(!v.wf()) by { assert(v.proposals == self.proposals@); } }
                if !f { assert(!v.wf()) by { assert(v.aliases == aliases_view(self.aliases@)); } }
                if !g { assert(!v.wf()) by { assert(v.memberships == self.memberships@); } }
                if !h { assert(!v.wf()) by { assert(v.roles == self.role_settings@); } }
                if !k { assert(!v.wf()) by { assert(v.users == self.user_settings@); } }
                if !l { assert(!v.wf()) by { assert(v.channels == self.channel_settings@); } }
                if !u {
                    assert(!v.wf()) by {
                        assert(v.guilds == self.guilds@);
                        assert(v.aliases == aliases_view(self.aliases@));
                        assert(v.memberships == self.memberships@);
                        assert(v.roles == self.role_settings@);
                        assert(v.users == self.user_settings@);
                        assert(v.channels == self.channel_settings@);
                    }
                }
            }
        }
        r
    }
}

} // verus!
