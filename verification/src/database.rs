use vstd::prelude::*;
use vstd::string::*;

use crate::structures::{ListId, PERMISSION, perm_rank};
use crate::text::{str_le, str_le_exec, str_eq};

verus! {

/// The largest value a SQL integer column can hold; ids and counters above it
/// cannot be handed to the store.
pub const I64_MAX: u64 = 0x7fff_ffff_ffff_ffff;

/// A `u64` that the store can hold as a SQL integer.
pub open spec fn sql_int(x: u64) -> bool {
    x <= I64_MAX
}

/// What the store answers when a statement fails.
#[derive(PartialEq, Eq, Structural, Clone, Copy, Debug)]
pub enum DbError {
    /// A `u64` argument does not fit in a SQL integer.
    ToSqlConversion,
    /// A single-row query matched no row.
    QueryReturnedNoRows,
    /// A statement was given `.0` parameters where it names `.1`.
    InvalidParameterCount(usize, usize),
    /// A row would reference a row of another table that does not exist, or a
    /// row still referenced from elsewhere would be deleted.
    ForeignKeyConstraint,
}

/// The settings of one guild (table `guilds`).
#[derive(PartialEq, Eq, Structural, Clone, Copy, Debug)]
pub struct GuildRow {
    pub id: u64,
    pub general_canping: bool,
    pub general_cooldown: u64,
    pub pingcooldown: u64,
    pub general_propose: bool,
    pub propose_threshold: u64,
    pub propose_timeout: u64,
    pub log_channel: u64,
}

/// One name of a list (table `alias`).
#[derive(Clone, Debug)]
pub struct AliasRow {
    pub list_id: u64,
    pub name: String,
}

/// One membership of a user in a list (table `memberships`).
#[derive(PartialEq, Eq, Structural, Clone, Copy, Debug)]
pub struct MembershipRow {
    pub user_id: u64,
    pub list_id: u64,
}

/// A ping list (table `lists`).
#[derive(Clone, Debug)]
pub struct ListRow {
    pub id: u64,
    pub guild_id: u64,
    pub description: String,
    pub cooldown: i64,
    pub join_permission: PERMISSION,
    pub ping_permission: PERMISSION,
    pub visible: bool,
}

/// The permissions of a role (table `role_settings`) or of a user (table
/// `user_settings`); `subject_id` is the role's or the user's id.
#[derive(PartialEq, Eq, Structural, Clone, Copy, Debug)]
pub struct SettingRow {
    pub guild_id: u64,
    pub subject_id: u64,
    pub propose_permission: PERMISSION,
    pub ping_permission: PERMISSION,
    pub ignore_gbcooldown: bool,
}

/// The rules of a channel (table `channel_settings`).
#[derive(PartialEq, Eq, Structural, Clone, Copy, Debug)]
pub struct ChannelRow {
    pub channel_id: u64,
    pub public_commands: bool,
    pub override_mentioning: PERMISSION,
    pub propose_permission: PERMISSION,
}

/// An automatic response (table `action_response`).
#[derive(Clone, Debug)]
pub struct ResponseRow {
    pub id: u64,
    pub guild_id: u64,
    pub trigger: u64,
    pub trigger_id: u64,
    pub response_channel: u64,
    pub response_message: String,
}

/// A condition on an automatic response (table `action_response_condition`).
#[derive(PartialEq, Eq, Structural, Clone, Copy, Debug)]
pub struct ConditionRow {
    pub id: u64,
    pub rolelog_id: u64,
    pub cond_type: u64,
    pub acomp_id: u64,
    pub invert: bool,
}

/// A running proposal for a list (table `proposals`).
#[derive(PartialEq, Eq, Structural, Clone, Copy, Debug)]
pub struct ProposalRow {
    pub list_id: u64,
    pub timestamp: i64,
    pub channel_id: u64,
    pub message_id: u64,
}

pub struct AliasV {
    pub list_id: u64,
    pub name: Seq<char>,
}

pub struct ListV {
    pub id: u64,
    pub guild_id: u64,
    pub description: Seq<char>,
    pub cooldown: i64,
    pub join_permission: PERMISSION,
    pub ping_permission: PERMISSION,
    pub visible: bool,
}

pub struct ResponseV {
    pub id: u64,
    pub guild_id: u64,
    pub trigger: u64,
    pub trigger_id: u64,
    pub response_channel: u64,
    pub response_message: Seq<char>,
}

impl View for AliasRow {
    type V = AliasV;

    open spec fn view(&self) -> AliasV {
        AliasV { list_id: self.list_id, name: self.name@ }
    }
}

impl View for ListRow {
    type V = ListV;

    open spec fn view(&self) -> ListV {
        ListV {
            id: self.id,
            guild_id: self.guild_id,
            description: self.description@,
            cooldown: self.cooldown,
            join_permission: self.join_permission,
            ping_permission: self.ping_permission,
            visible: self.visible,
        }
    }
}

impl View for ResponseRow {
    type V = ResponseV;

    open spec fn view(&self) -> ResponseV {
        ResponseV {
            id: self.id,
            guild_id: self.guild_id,
            trigger: self.trigger,
            trigger_id: self.trigger_id,
            response_channel: self.response_channel,
            response_message: self.response_message@,
        }
    }
}

/// The contents of every table, in table order.
pub struct DbView {
    pub guilds: Seq<GuildRow>,
    pub aliases: Seq<AliasV>,
    pub memberships: Seq<MembershipRow>,
    pub lists: Seq<ListV>,
    pub roles: Seq<SettingRow>,
    pub users: Seq<SettingRow>,
    pub channels: Seq<ChannelRow>,
    pub responses: Seq<ResponseV>,
    pub conditions: Seq<ConditionRow>,
    pub proposals: Seq<ProposalRow>,
}

/// The bot's store: one vector per table, each in the order its rows are read.
pub struct Database {
    pub guilds: Vec<GuildRow>,
    pub aliases: Vec<AliasRow>,
    pub memberships: Vec<MembershipRow>,
    pub lists: Vec<ListRow>,
    pub role_settings: Vec<SettingRow>,
    pub user_settings: Vec<SettingRow>,
    pub channel_settings: Vec<ChannelRow>,
    pub responses: Vec<ResponseRow>,
    pub conditions: Vec<ConditionRow>,
    pub proposals: Vec<ProposalRow>,
}

pub open spec fn aliases_view(s: Seq<AliasRow>) -> Seq<AliasV> {
    s.map_values(|r: AliasRow| r@)
}

pub open spec fn lists_view(s: Seq<ListRow>) -> Seq<ListV> {
    s.map_values(|r: ListRow| r@)
}

pub open spec fn responses_view(s: Seq<ResponseRow>) -> Seq<ResponseV> {
    s.map_values(|r: ResponseRow| r@)
}

impl View for Database {
    type V = DbView;

    open spec fn view(&self) -> DbView {
        DbView {
            guilds: self.guilds@,
            aliases: aliases_view(self.aliases@),
            memberships: self.memberships@,
            lists: lists_view(self.lists@),
            roles: self.role_settings@,
            users: self.user_settings@,
            channels: self.channel_settings@,
            responses: responses_view(self.responses@),
            conditions: self.conditions@,
            proposals: self.proposals@,
        }
    }
}


// ---------------------------------------------------------------------------
// Lookups and the store's invariant
// ---------------------------------------------------------------------------

pub open spec fn has_guild_row(guilds: Seq<GuildRow>, id: u64) -> bool {
    exists|j: int| 0 <= j < guilds.len() && #[trigger] guilds[j].id == id
}

pub open spec fn has_list_row(lists: Seq<ListV>, id: u64) -> bool {
    exists|j: int| 0 <= j < lists.len() && #[trigger] lists[j].id == id
}

pub open spec fn has_response_row(responses: Seq<ResponseV>, id: u64) -> bool {
    exists|j: int| 0 <= j < responses.len() && #[trigger] responses[j].id == id
}

/// Each element's key is strictly larger than the one before: the table is in
/// rowid order and its keys are unique.
pub open spec fn keys_increasing(keys: Seq<u64>) -> bool {
    forall|i: int, j: int| 0 <= i < j < keys.len() ==> keys[i] < keys[j]
}

pub open spec fn list_keys(lists: Seq<ListV>) -> Seq<u64> {
    lists.map_values(|l: ListV| l.id)
}

pub open spec fn response_keys(responses: Seq<ResponseV>) -> Seq<u64> {
    responses.map_values(|r: ResponseV| r.id)
}

pub open spec fn condition_keys(conditions: Seq<ConditionRow>) -> Seq<u64> {
    conditions.map_values(|c: ConditionRow| c.id)
}

pub open spec fn proposal_keys(proposals: Seq<ProposalRow>) -> Seq<u64> {
    proposals.map_values(|p: ProposalRow| p.list_id)
}

/// The aliases are in ascending order of their names.
pub open spec fn aliases_sorted(aliases: Seq<AliasV>) -> bool {
    forall|i: int, j: int| 0 <= i < j < aliases.len() ==> str_le(aliases[i].name, aliases[j].name)
}

pub open spec fn guild_row_ok(g: GuildRow) -> bool {
    &&& sql_int(g.id)
    &&& sql_int(g.general_cooldown)
    &&& sql_int(g.pingcooldown)
    &&& 0 < g.propose_threshold <= I64_MAX
    &&& 2 < g.propose_timeout <= I64_MAX
    &&& sql_int(g.log_channel)
}

pub open spec fn list_row_ok(l: ListV) -> bool {
    &&& 0 < l.id <= I64_MAX
    &&& sql_int(l.guild_id)
    &&& l.cooldown >= -1
}

pub open spec fn response_row_ok(r: ResponseV) -> bool {
    &&& 0 < r.id <= I64_MAX
    &&& sql_int(r.guild_id)
    &&& r.trigger <= 3
    &&& sql_int(r.trigger_id)
    &&& sql_int(r.response_channel)
}

pub open spec fn condition_row_ok(c: ConditionRow) -> bool {
    &&& 0 < c.id <= I64_MAX
    &&& sql_int(c.rolelog_id)
    &&& c.cond_type == 0
    &&& sql_int(c.acomp_id)
}

pub open spec fn proposal_row_ok(p: ProposalRow) -> bool {
    &&& sql_int(p.list_id)
    &&& sql_int(p.channel_id)
    &&& sql_int(p.message_id)
}

/// `UNIQUE(user_id, list_id)`: a user is in a list at most once.
pub open spec fn memberships_unique(ms: Seq<MembershipRow>) -> bool {
    forall|i: int, j: int| 0 <= i < j < ms.len() ==> !(#[trigger] ms[i].user_id == #[trigger] ms[j].user_id
        && ms[i].list_id == ms[j].list_id)
}

/// `UNIQUE(list_id, name)`: a list has each name at most once.
pub open spec fn aliases_unique(als: Seq<AliasV>) -> bool {
    forall|i: int, j: int| 0 <= i < j < als.len() ==> !(#[trigger] als[i].list_id == #[trigger] als[j].list_id
        && als[i].name == als[j].name)
}

/// `role_id` / `user_id UNIQUE`: one settings row per role or user.
pub open spec fn settings_unique(rows: Seq<SettingRow>) -> bool {
    forall|i: int, j: int| 0 <= i < j < rows.len() ==> #[trigger] rows[i].subject_id != #[trigger] rows[j].subject_id
}

/// `channel_id PRIMARY KEY`: one row per channel.
pub open spec fn channels_unique(rows: Seq<ChannelRow>) -> bool {
    forall|i: int, j: int| 0 <= i < j < rows.len() ==> #[trigger] rows[i].channel_id != #[trigger] rows[j].channel_id
}

/// `id PRIMARY KEY`: one row per guild.
pub open spec fn guilds_unique(gs: Seq<GuildRow>) -> bool {
    forall|i: int, j: int| 0 <= i < j < gs.len() ==> #[trigger] gs[i].id != #[trigger] gs[j].id
}

impl DbView {
    /// Every row holds values the store accepts, keyed tables are in key order,
    /// names are sorted, no key a table holds unique is there twice, and no row
    /// refers to a missing row.
    pub open spec fn wf(self) -> bool {
        &&& forall|i: int| 0 <= i < self.guilds.len() ==> guild_row_ok(#[trigger] self.guilds[i])
        &&& forall|i: int| 0 <= i < self.lists.len() ==> list_row_ok(#[trigger] self.lists[i])
        &&& forall|i: int| 0 <= i < self.responses.len() ==> response_row_ok(#[trigger] self.responses[i])
        &&& forall|i: int| 0 <= i < self.conditions.len() ==> condition_row_ok(#[trigger] self.conditions[i])
        &&& forall|i: int| 0 <= i < self.proposals.len() ==> proposal_row_ok(#[trigger] self.proposals[i])
        &&& forall|i: int| 0 <= i < self.aliases.len() ==> sql_int(#[trigger] self.aliases[i].list_id)
        &&& forall|i: int| 0 <= i < self.memberships.len() ==> sql_int(#[trigger] self.memberships[i].user_id)
        &&& forall|i: int| 0 <= i < self.roles.len() ==> sql_int(#[trigger] self.roles[i].subject_id)
        &&& forall|i: int| 0 <= i < self.users.len() ==> sql_int(#[trigger] self.users[i].subject_id)
        &&& forall|i: int| 0 <= i < self.channels.len() ==> sql_int(#[trigger] self.channels[i].channel_id)
        &&& keys_increasing(list_keys(self.lists))
        &&& keys_increasing(response_keys(self.responses))
        &&& keys_increasing(condition_keys(self.conditions))
        &&& keys_increasing(proposal_keys(self.proposals))
        &&& aliases_sorted(self.aliases)
        &&& guilds_unique(self.guilds)
        &&& aliases_unique(self.aliases)
        &&& memberships_unique(self.memberships)
        &&& settings_unique(self.roles)
        &&& settings_unique(self.users)
        &&& channels_unique(self.channels)
        &&& forall|i: int| 0 <= i < self.aliases.len() ==> has_list_row(self.lists, #[trigger] self.aliases[i].list_id)
        &&& forall|i: int| 0 <= i < self.memberships.len() ==> has_list_row(self.lists, #[trigger] self.memberships[i].list_id)
        &&& forall|i: int| 0 <= i < self.proposals.len() ==> has_list_row(self.lists, #[trigger] self.proposals[i].list_id)
        &&& forall|i: int| 0 <= i < self.lists.len() ==> has_guild_row(self.guilds, #[trigger] self.lists[i].guild_id)
        &&& forall|i: int| 0 <= i < self.roles.len() ==> has_guild_row(self.guilds, #[trigger] self.roles[i].guild_id)
        &&& forall|i: int| 0 <= i < self.users.len() ==> has_guild_row(self.guilds, #[trigger] self.users[i].guild_id)
        &&& forall|i: int| 0 <= i < self.responses.len() ==> has_guild_row(self.guilds, #[trigger] self.responses[i].guild_id)
        &&& forall|i: int| 0 <= i < self.conditions.len() ==> has_response_row(self.responses, #[trigger] self.conditions[i].rolelog_id)
    }
}

// ---------------------------------------------------------------------------
// Guilds
// ---------------------------------------------------------------------------

/// A column of `guilds` with the value to write into it.
#[derive(PartialEq, Eq, Structural, Clone, Copy, Debug)]
pub enum GuildField {
    CanPing(bool),
    GeneralCooldown(u64),
    PingCooldown(u64),
    CanPropose(bool),
    ProposeTimeout(u64),
    ProposeThreshold(u64),
    LogChannel(u64),
}

pub open spec fn guild_with(g: GuildRow, f: GuildField) -> GuildRow {
    match f {
        GuildField::CanPing(b) => GuildRow { general_canping: b, ..g },
        GuildField::GeneralCooldown(v) => GuildRow { general_cooldown: v, ..g },
        GuildField::PingCooldown(v) => GuildRow { pingcooldown: v, ..g },
        GuildField::CanPropose(b) => GuildRow { general_propose: b, ..g },
        GuildField::ProposeTimeout(v) => GuildRow { propose_timeout: v, ..g },
        GuildField::ProposeThreshold(v) => GuildRow { propose_threshold: v, ..g },
        GuildField::LogChannel(v) => GuildRow { log_channel: v, ..g },
    }
}

/// `UPDATE guilds SET <f> WHERE id = <id>`.
pub open spec fn update_guilds(guilds: Seq<GuildRow>, id: u64, f: GuildField) -> Seq<GuildRow> {
    guilds.map_values(|g: GuildRow| if g.id == id { guild_with(g, f) } else { g })
}

/// A value the column accepts.
pub open spec fn guild_field_ok(f: GuildField) -> bool {
    match f {
        GuildField::CanPing(_) => true,
        GuildField::GeneralCooldown(v) => sql_int(v),
        GuildField::PingCooldown(v) => sql_int(v),
        GuildField::CanPropose(_) => true,
        GuildField::ProposeTimeout(v) => 2 < v <= I64_MAX,
        GuildField::ProposeThreshold(v) => 0 < v <= I64_MAX,
        GuildField::LogChannel(v) => sql_int(v),
    }
}

/// The row a new guild starts with.
pub open spec fn default_guild(id: u64) -> GuildRow {
    GuildRow {
        id,
        general_canping: true,
        general_cooldown: 0,
        pingcooldown: 1800,
        general_propose: true,
        propose_threshold: 8,
        propose_timeout: 86400,
        log_channel: 0,
    }
}

/// `i` is the first row of guild `id`.
pub open spec fn first_guild(guilds: Seq<GuildRow>, id: u64, i: int) -> bool {
    &&& 0 <= i < guilds.len()
    &&& guilds[i].id == id
    &&& forall|j: int| 0 <= j < i ==> (#[trigger] guilds[j]).id != id
}

/// The row of guild `id` (the first one a query meets).
pub open spec fn guild_of(guilds: Seq<GuildRow>, id: u64) -> GuildRow {
    guilds[choose|i: int| first_guild(guilds, id, i)]
}

pub proof fn lemma_first_guild(guilds: Seq<GuildRow>, id: u64, i: int)
    requires
        first_guild(guilds, id, i),
    ensures
        guild_of(guilds, id) == guilds[i],
{
    let k = choose|k: int| first_guild(guilds, id, k);
    assert(first_guild(guilds, id, k));
    if k < i {
        assert(guilds[k].id != id);
    } else if i < k {
        assert(guilds[i].id != id);
    }
}

pub proof fn lemma_first_guild_exists(guilds: Seq<GuildRow>, id: u64, k: int)
    requires
        0 <= k < guilds.len(),
        guilds[k].id == id,
    ensures
        exists|i: int| first_guild(guilds, id, i),
    decreases k,
{
    if forall|j: int| 0 <= j < k ==> (#[trigger] guilds[j]).id != id {
        assert(first_guild(guilds, id, k));
    } else {
        let j = choose|j: int| 0 <= j < k && !((#[trigger] guilds[j]).id != id);
        lemma_first_guild_exists(guilds, id, j);
    }
}

/// A known guild's row holds values the store accepts.
pub proof fn lemma_guild_of_ok(v: DbView, id: u64)
    requires
        v.wf(),
        has_guild_row(v.guilds, id),
    ensures
        guild_row_ok(guild_of(v.guilds, id)),
{
    let q = choose|q: int| 0 <= q < v.guilds.len() && #[trigger] v.guilds[q].id == id;
    lemma_first_guild_exists(v.guilds, id, q);
    let k = choose|k: int| first_guild(v.guilds, id, k);
    lemma_first_guild(v.guilds, id, k);
}

impl DbView {
    pub open spec fn with_guilds(self, guilds: Seq<GuildRow>) -> DbView {
        DbView { guilds, ..self }
    }
}

impl Database {
    /// Index of the first row of guild `id`.
    fn find_guild(&self, id: u64) -> (res: Option<usize>)
        ensures
            res matches Some(i) ==> first_guild(self@.guilds, id, i as int)
                && guild_of(self@.guilds, id) == self@.guilds[i as int],
            res is None ==> !has_guild_row(self@.guilds, id),
    {
        let mut i: usize = 0;
        while i < self.guilds.len()
            invariant
                i <= self.guilds.len(),
                forall|j: int| 0 <= j < i ==> (#[trigger] self.guilds@[j]).id != id,
            decreases self.guilds.len() - i,
        {
            if self.guilds[i].id == id {
                proof {
                    lemma_first_guild(self@.guilds, id, i as int);
                }
                return Some(i);
            }
            i += 1;
        }
        None
    }

    fn update_guild(&mut self, id: u64, f: GuildField)
        requires
            old(self)@.wf(),
            guild_field_ok(f),
        ensures
            final(self)@ == old(self)@.with_guilds(update_guilds(old(self)@.guilds, id, f)),
            final(self)@.wf(),
    {
        let ghost old_v = self@;
        let mut i: usize = 0;
        while i < self.guilds.len()
            invariant
                i <= self.guilds.len(),
                self.guilds.len() == old_v.guilds.len(),
                self@ == old_v.with_guilds(self.guilds@),
                forall|j: int| 0 <= j < i ==> self.guilds@[j] == (if old_v.guilds[j].id == id {
                    guild_with(old_v.guilds[j], f)
                } else {
                    old_v.guilds[j]
                }),
                forall|j: int| i <= j < self.guilds.len() ==> self.guilds@[j] == old_v.guilds[j],
            decreases self.guilds.len() - i,
        {
            if self.guilds[i].id == id {
                let mut g = self.guilds[i];
                match f {
                    GuildField::CanPing(b) => { g.general_canping = b; },
                    GuildField::GeneralCooldown(v) => { g.general_cooldown = v; },
                    GuildField::PingCooldown(v) => { g.pingcooldown = v; },
                    GuildField::CanPropose(b) => { g.general_propose = b; },
                    GuildField::ProposeTimeout(v) => { g.propose_timeout = v; },
                    GuildField::ProposeThreshold(v) => { g.propose_threshold = v; },
                    GuildField::LogChannel(v) => { g.log_channel = v; },
                }
                self.guilds.set(i, g);
            }
            i += 1;
        }
        assert(self.guilds@ =~= update_guilds(old_v.guilds, id, f));
        proof {
            let n = self@;
            assert forall|k: int| 0 <= k < n.lists.len() implies has_guild_row(n.guilds, #[trigger] n.lists[k].guild_id) by {
                let j = choose|j: int| 0 <= j < old_v.guilds.len() && #[trigger] old_v.guilds[j].id == old_v.lists[k].guild_id;
                assert(n.guilds[j].id == old_v.guilds[j].id);
            }
            assert forall|k: int| 0 <= k < n.roles.len() implies has_guild_row(n.guilds, #[trigger] n.roles[k].guild_id) by {
                let j = choose|j: int| 0 <= j < old_v.guilds.len() && #[trigger] old_v.guilds[j].id == old_v.roles[k].guild_id;
                assert(n.guilds[j].id == old_v.guilds[j].id);
            }
            assert forall|k: int| 0 <= k < n.users.len() implies has_guild_row(n.guilds, #[trigger] n.users[k].guild_id) by {
                let j = choose|j: int| 0 <= j < old_v.guilds.len() && #[trigger] old_v.guilds[j].id == old_v.users[k].guild_id;
                assert(n.guilds[j].id == old_v.guilds[j].id);
            }
            assert forall|k: int| 0 <= k < n.responses.len() implies has_guild_row(n.guilds, #[trigger] n.responses[k].guild_id) by {
                let j = choose|j: int| 0 <= j < old_v.guilds.len() && #[trigger] old_v.guilds[j].id == old_v.responses[k].guild_id;
                assert(n.guilds[j].id == old_v.guilds[j].id);
            }
        }
    }

    fn has_guild(&self, guild_id: u64) -> (res: bool)
        requires
            sql_int(guild_id),
        ensures
            res == has_guild_row(self@.guilds, guild_id),
    {
        self.find_guild(guild_id).is_some()
    }

    /// Registers a guild with the default settings; a known guild is left as it is.
    pub fn add_guild(&mut self, id: u64) -> (res: Result<(), DbError>)
        requires
            old(self)@.wf(),
            sql_int(id),
        ensures
            final(self)@.wf(),
            res is Ok,
            has_guild_row(old(self)@.guilds, id) ==> final(self)@ == old(self)@,
            !has_guild_row(old(self)@.guilds, id) ==> final(self)@ == old(self)@.with_guilds(
                old(self)@.guilds.push(default_guild(id)),
            ),
    {
        if self.has_guild(id) {
            return Ok(());
        }
        let ghost old_v = self@;
        self.guilds.push(GuildRow {
            id,
            general_canping: true,
            general_cooldown: 0,
            pingcooldown: 1800,
            general_propose: true,
            propose_threshold: 8,
            propose_timeout: 86400,
            log_channel: 0,
        });
        proof {
            let n = self@;
            assert(n == old_v.with_guilds(old_v.guilds.push(default_guild(id))));
            assert forall|k: int| 0 <= k < n.lists.len() implies has_guild_row(n.guilds, #[trigger] n.lists[k].guild_id) by {
                let j = choose|j: int| 0 <= j < old_v.guilds.len() && #[trigger] old_v.guilds[j].id == old_v.lists[k].guild_id;
                assert(n.guilds[j] == old_v.guilds[j]);
            }
            assert forall|k: int| 0 <= k < n.roles.len() implies has_guild_row(n.guilds, #[trigger] n.roles[k].guild_id) by {
                let j = choose|j: int| 0 <= j < old_v.guilds.len() && #[trigger] old_v.guilds[j].id == old_v.roles[k].guild_id;
                assert(n.guilds[j] == old_v.guilds[j]);
            }
            assert forall|k: int| 0 <= k < n.users.len() implies has_guild_row(n.guilds, #[trigger] n.users[k].guild_id) by {
                let j = choose|j: int| 0 <= j < old_v.guilds.len() && #[trigger] old_v.guilds[j].id == old_v.users[k].guild_id;
                assert(n.guilds[j] == old_v.guilds[j]);
            }
            assert forall|k: int| 0 <= k < n.responses.len() implies has_guild_row(n.guilds, #[trigger] n.responses[k].guild_id) by {
                let j = choose|j: int| 0 <= j < old_v.guilds.len() && #[trigger] old_v.guilds[j].id == old_v.responses[k].guild_id;
                assert(n.guilds[j] == old_v.guilds[j]);
            }
        }
        Ok(())
    }

    /// The guild's shared cooldown, whether everyone may ping, and the default
    /// list cooldown.
    pub fn get_guild_ping_data(&self, guild_id: u64) -> (res: (u64, bool, u64))
        requires
            self@.wf(),
            has_guild_row(self@.guilds, guild_id),
        ensures
            res == ({
                let g = guild_of(self@.guilds, guild_id);
                (g.general_cooldown, g.general_canping, g.pingcooldown)
            }),
    {
        let i = self.find_guild(guild_id).unwrap();
        let g = self.guilds[i];
        (g.general_cooldown, g.general_canping, g.pingcooldown)
    }

    pub fn set_guild_canping(&mut self, guild_id: u64, value: bool) -> (res: Result<(), DbError>)
        requires
            old(self)@.wf(),
        ensures
            final(self)@.wf(),
            sql_int(guild_id) ==> res is Ok && final(self)@ == old(self)@.with_guilds(
                update_guilds(old(self)@.guilds, guild_id, GuildField::CanPing(value)),
            ),
            !sql_int(guild_id) ==> res == Err::<(), DbError>(DbError::ToSqlConversion)
                && final(self)@ == old(self)@,
    {
        if guild_id > I64_MAX {
            return Err(DbError::ToSqlConversion);
        }
        self.update_guild(guild_id, GuildField::CanPing(value));
        Ok(())
    }

    pub fn set_guild_general_cooldown(&mut self, guild_id: u64, value: u64) -> (res: Result<(), DbError>)
        requires
            old(self)@.wf(),
        ensures
            final(self)@.wf(),
            sql_int(guild_id) && sql_int(value) ==> res is Ok && final(self)@ == old(self)@.with_guilds(
                update_guilds(old(self)@.guilds, guild_id, GuildField::GeneralCooldown(value)),
            ),
            !(sql_int(guild_id) && sql_int(value)) ==> res == Err::<(), DbError>(DbError::ToSqlConversion)
                && final(self)@ == old(self)@,
    {
        if value > I64_MAX || guild_id > I64_MAX {
            return Err(DbError::ToSqlConversion);
        }
        self.update_guild(guild_id, GuildField::GeneralCooldown(value));
        Ok(())
    }

    pub fn set_guild_ping_cooldown(&mut self, guild_id: u64, value: u64) -> (res: Result<(), DbError>)
        requires
            old(self)@.wf(),
        ensures
            final(self)@.wf(),
            sql_int(guild_id) && sql_int(value) ==> res is Ok && final(self)@ == old(self)@.with_guilds(
                update_guilds(old(self)@.guilds, guild_id, GuildField::PingCooldown(value)),
            ),
            !(sql_int(guild_id) && sql_int(value)) ==> res == Err::<(), DbError>(DbError::ToSqlConversion)
                && final(self)@ == old(self)@,
    {
        if value > I64_MAX || guild_id > I64_MAX {
            return Err(DbError::ToSqlConversion);
        }
        self.update_guild(guild_id, GuildField::PingCooldown(value));
        Ok(())
    }

    pub fn set_guild_canpropose(&mut self, guild_id: u64, value: bool)
        requires
            old(self)@.wf(),
            sql_int(guild_id),
        ensures
            final(self)@.wf(),
            final(self)@ == old(self)@.with_guilds(
                update_guilds(old(self)@.guilds, guild_id, GuildField::CanPropose(value)),
            ),
    {
        self.update_guild(guild_id, GuildField::CanPropose(value));
    }

    /// Sets how long a proposal stays open; the store refuses a timeout of two
    /// seconds or less for a known guild.
    pub fn set_propose_timeout(&mut self, guild_id: u64, value: u64)
        requires
            old(self)@.wf(),
            sql_int(guild_id),
            sql_int(value),
            has_guild_row(old(self)@.guilds, guild_id) ==> value > 2,
        ensures
            final(self)@.wf(),
            final(self)@ == old(self)@.with_guilds(
                update_guilds(old(self)@.guilds, guild_id, GuildField::ProposeTimeout(value)),
            ),
    {
        if value > 2 {
            self.update_guild(guild_id, GuildField::ProposeTimeout(value));
        } else {
            assert(old(self)@.guilds =~= update_guilds(old(self)@.guilds, guild_id, GuildField::ProposeTimeout(value)));
        }
    }

    /// Sets how many votes accept a proposal; the store refuses zero for a
    /// known guild.
    pub fn set_propose_threshold(&mut self, guild_id: u64, value: u64)
        requires
            old(self)@.wf(),
            sql_int(guild_id),
            sql_int(value),
            has_guild_row(old(self)@.guilds, guild_id) ==> value > 0,
        ensures
            final(self)@.wf(),
            final(self)@ == old(self)@.with_guilds(
                update_guilds(old(self)@.guilds, guild_id, GuildField::ProposeThreshold(value)),
            ),
    {
        if value > 0 {
            self.update_guild(guild_id, GuildField::ProposeThreshold(value));
        } else {
            assert(old(self)@.guilds =~= update_guilds(old(self)@.guilds, guild_id, GuildField::ProposeThreshold(value)));
        }
    }

    /// Whether proposals are enabled, their timeout, and their vote threshold.
    pub fn get_propose_settings(&self, guild_id: u64) -> (res: (bool, u64, usize))
        requires
            self@.wf(),
            has_guild_row(self@.guilds, guild_id),
        ensures
            res.0 == guild_of(self@.guilds, guild_id).general_propose,
            res.1 == guild_of(self@.guilds, guild_id).propose_timeout,
            res.2 == guild_of(self@.guilds, guild_id).propose_threshold as usize,
    {
        let i = self.find_guild(guild_id).unwrap();
        let g = self.guilds[i];
        (g.general_propose, g.propose_timeout, #[verifier::truncate] (g.propose_threshold as usize))
    }

    /// Sets the channel that purged messages are logged to. Clearing it is
    /// refused by the store: the statement names a second parameter that is
    /// never given.
    pub fn set_log_channel(&mut self, guild_id: u64, channel_id: Option<u64>) -> (res: Result<(), DbError>)
        requires
            old(self)@.wf(),
        ensures
            final(self)@.wf(),
            channel_id is None ==> res == Err::<(), DbError>(DbError::InvalidParameterCount(1, 2))
                && final(self)@ == old(self)@,
            match channel_id {
                Some(c) => if sql_int(c) && sql_int(guild_id) {
                    res is Ok && final(self)@ == old(self)@.with_guilds(
                        update_guilds(old(self)@.guilds, guild_id, GuildField::LogChannel(c)),
                    )
                } else {
                    res == Err::<(), DbError>(DbError::ToSqlConversion) && final(self)@ == old(self)@
                },
                None => true,
            },
    {
        match channel_id {
            Some(c) => {
                if c > I64_MAX || guild_id > I64_MAX {
                    return Err(DbError::ToSqlConversion);
                }
                self.update_guild(guild_id, GuildField::LogChannel(c));
                Ok(())
            },
            None => Err(DbError::InvalidParameterCount(1, 2)),
        }
    }

    /// The channel that purged messages are logged to, if one is set.
    pub fn get_log_channel(&self, guild_id: u64) -> (res: Result<Option<u64>, DbError>)
        requires
            self@.wf(),
        ensures
            !sql_int(guild_id) ==> res == Err::<Option<u64>, DbError>(DbError::ToSqlConversion),
            sql_int(guild_id) && !has_guild_row(self@.guilds, guild_id) ==> res == Err::<
                Option<u64>,
                DbError,
            >(DbError::QueryReturnedNoRows),
            sql_int(guild_id) && has_guild_row(self@.guilds, guild_id) ==> res == Ok::<
                Option<u64>,
                DbError,
            >(
                if guild_of(self@.guilds, guild_id).log_channel == 0 {
                    None
                } else {
                    Some(guild_of(self@.guilds, guild_id).log_channel)
                },
            ),
    {
        if guild_id > I64_MAX {
            return Err(DbError::ToSqlConversion);
        }
        match self.find_guild(guild_id) {
            None => Err(DbError::QueryReturnedNoRows),
            Some(i) => {
                let c = self.guilds[i].log_channel;
                if c == 0 {
                    Ok(None)
                } else {
                    Ok(Some(c))
                }
            },
        }
    }
}

} // verus!
