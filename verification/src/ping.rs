use std::collections::HashMap;
use std::collections::HashSet;
use vstd::prelude::*;
use vstd::string::*;

use crate::database::{Database, DbView, SettingRow, guild_of, has_guild_row, has_list_row, sql_int};
use crate::db_lists::{list_named, list_of, lemma_list_named_some, member_of};
use crate::db_settings::{
    key_in_guild, channel_of, ensure_channel, ensure_setting, has_setting, lemma_first_setting, first_setting,
    setting_of, setting_present,
};
use crate::lists::lemma_filter_map_has;
use crate::structures::{PERMISSION, perm_max};
use crate::text::{byte_len, dec, join_seq, join_strings, lemma_byte_len_concat, push_dec, utf8_len};

verus! {

broadcast use vstd::std_specs::hash::group_hash_axioms;

/// Why a ping (or one list of it) is refused.
#[derive(PartialEq, Eq, Structural, Clone, Copy, Debug)]
pub enum ListInvalidReasons {
    OnLocalCooldown,
    OnGlobalCooldown,
    GuildRestrictPing,
    ChannelRestrictPing,
    ListRestrictPing,
    DoesNotExist,
    RoleRestrictPing,
}

/// When each guild, and each list, was last pinged (seconds since the epoch).
pub struct Cooldowns {
    pub global: HashMap<u64, u64>,
    pub local: HashMap<u64, u64>,
}

pub struct CooldownsV {
    pub global: Map<u64, u64>,
    pub local: Map<u64, u64>,
}

impl View for Cooldowns {
    type V = CooldownsV;

    open spec fn view(&self) -> CooldownsV {
        CooldownsV { global: self.global@, local: self.local@ }
    }
}

impl Cooldowns {
    /// No ping has happened yet.
    pub fn new() -> (res: Cooldowns)
        ensures
            res@.global == Map::<u64, u64>::empty(),
            res@.local == Map::<u64, u64>::empty(),
    {
        Cooldowns { global: HashMap::new(), local: HashMap::new() }
    }
}

/// The last ping time kept under `k`, 0 when there is none.
pub open spec fn last_ping(m: Map<u64, u64>, k: u64) -> u64 {
    if m.contains_key(k) {
        m[k]
    } else {
        0
    }
}

/// `entry(k).or_insert(0)`.
pub open spec fn touch(m: Map<u64, u64>, k: u64) -> Map<u64, u64> {
    if m.contains_key(k) {
        m
    } else {
        m.insert(k, 0)
    }
}

fn touch_key(m: &mut HashMap<u64, u64>, k: u64) -> (last: u64)
    ensures
        final(m)@ == touch(old(m)@, k),
        last == last_ping(old(m)@, k),
{
    match m.get(&k) {
        Some(v) => *v,
        None => {
            m.insert(k, 0);
            0
        },
    }
}

// ---------------------------------------------------------------------------
// Who may ping: the member's user row, then each of its roles
// ---------------------------------------------------------------------------

/// The settings table after each key got its row, in order.
pub open spec fn ensure_settings(rows: Seq<SettingRow>, guild_id: u64, keys: Seq<u64>) -> Seq<SettingRow>
    decreases keys.len(),
{
    if keys.len() == 0 {
        rows
    } else {
        ensure_setting(ensure_settings(rows, guild_id, keys.drop_last()), guild_id, keys.last())
    }
}

/// `start` combined with the ping permission of each role.
pub open spec fn roles_ping(rows: Seq<SettingRow>, guild_id: u64, roles: Seq<u64>, start: PERMISSION) -> PERMISSION
    decreases roles.len(),
{
    if roles.len() == 0 {
        start
    } else {
        perm_max(roles_ping(rows, guild_id, roles.drop_last(), start), setting_of(rows, guild_id, roles.last()).ping_permission)
    }
}

/// One of the roles ignores the shared cooldown.
pub open spec fn roles_ignore(rows: Seq<SettingRow>, guild_id: u64, roles: Seq<u64>) -> bool
    decreases roles.len(),
{
    roles.len() > 0 && (roles_ignore(rows, guild_id, roles.drop_last())
        || setting_of(rows, guild_id, roles.last()).ignore_gbcooldown)
}

/// The permission reads of a ping succeed: the guild is known, and the user
/// and each role either have no row yet or have one in this guild.
pub open spec fn permissions_readable(v: DbView, guild_id: u64, user_id: u64, roles: Seq<u64>) -> bool {
    &&& has_guild_row(v.guilds, guild_id)
    &&& setting_present(v.users, user_id) ==> has_setting(v.users, guild_id, user_id)
    &&& forall|i: int| 0 <= i < roles.len() && setting_present(v.roles, #[trigger] roles[i])
        ==> has_setting(v.roles, guild_id, roles[i])
}

impl Database {
    /// Whether the permission reads of a ping can be made (see
    /// `permissions_readable`).
    pub fn can_read_permissions(&self, guild_id: u64, user_id: u64, roles: &Vec<u64>) -> (res: bool)
        ensures
            res == permissions_readable(self@, guild_id, user_id, roles@),
    {
        if !self.guild_known(guild_id) {
            return false;
        }
        if !key_in_guild(&self.user_settings, guild_id, user_id) {
            return false;
        }
        let mut i: usize = 0;
        while i < roles.len()
            invariant
                i <= roles.len(),
                forall|k: int| 0 <= k < i && setting_present(self@.roles, #[trigger] roles@[k])
                    ==> has_setting(self@.roles, guild_id, roles@[k]),
            decreases roles.len() - i,
        {
            if !key_in_guild(&self.role_settings, guild_id, roles[i]) {
                return false;
            }
            i += 1;
        }
        true
    }
}

/// The store after a ping was checked: the user, each role and the channel
/// have a settings row.
pub open spec fn ping_db(v: DbView, guild_id: u64, user_id: u64, roles: Seq<u64>, channel_id: u64) -> DbView {
    v.with_users(ensure_setting(v.users, guild_id, user_id))
        .with_roles(ensure_settings(v.roles, guild_id, roles))
        .with_channels(ensure_channel(v.channels, channel_id))
}

/// The member's own ping permission: `ALLOW` for a moderator, combined with
/// the user's and each role's.
pub open spec fn ping_override(n: DbView, guild_id: u64, user_id: u64, roles: Seq<u64>, admin: bool) -> PERMISSION {
    let start = perm_max(
        if admin { PERMISSION::ALLOW } else { PERMISSION::NEUTRAL },
        setting_of(n.users, guild_id, user_id).ping_permission,
    );
    roles_ping(n.roles, guild_id, roles, start)
}

pub open spec fn ping_ignores_cooldown(n: DbView, guild_id: u64, user_id: u64, roles: Seq<u64>, admin: bool) -> bool {
    admin || setting_of(n.users, guild_id, user_id).ignore_gbcooldown || roles_ignore(n.roles, guild_id, roles)
}

pub open spec fn for_all(r: ListInvalidReasons) -> (Seq<char>, ListInvalidReasons) {
    ("all"@, r)
}

/// The reasons that stop the whole ping, before any list is looked at.
pub open spec fn ping_header(
    n: DbView,
    guild_id: u64,
    user_id: u64,
    roles: Seq<u64>,
    channel_id: u64,
    admin: bool,
    global: Map<u64, u64>,
    timestamp: u64,
) -> Seq<(Seq<char>, ListInvalidReasons)> {
    let o = ping_override(n, guild_id, user_id, roles, admin);
    let guild = guild_of(n.guilds, guild_id);
    let perm = if o == PERMISSION::DENY {
        seq![for_all(ListInvalidReasons::RoleRestrictPing)]
    } else if o == PERMISSION::NEUTRAL && !guild.general_canping {
        seq![for_all(ListInvalidReasons::GuildRestrictPing)]
    } else if o == PERMISSION::NEUTRAL && channel_of(n.channels, channel_id).override_mentioning == PERMISSION::DENY {
        seq![for_all(ListInvalidReasons::ChannelRestrictPing)]
    } else {
        Seq::empty()
    };
    if !ping_ignores_cooldown(n, guild_id, user_id, roles, admin)
        && last_ping(global, guild_id) + guild.general_cooldown >= timestamp {
        perm.push(for_all(ListInvalidReasons::OnGlobalCooldown))
    } else {
        perm
    }
}

// ---------------------------------------------------------------------------
// The lists named in the ping
// ---------------------------------------------------------------------------

/// What looking at the named lists has found so far.
pub struct ScanV {
    pub invalid: Seq<(Seq<char>, ListInvalidReasons)>,
    pub ids: Seq<u64>,
    pub local: Map<u64, u64>,
}

/// A list's cooldown, the guild's default where the list has `-1`.
pub open spec fn list_cooldown(n: DbView, guild_id: u64, id: u64) -> int {
    let c = list_of(n.lists, id).cooldown;
    if c == -1 {
        guild_of(n.guilds, guild_id).pingcooldown as int
    } else {
        c as int
    }
}

pub open spec fn scan_step(n: DbView, guild_id: u64, admin: bool, timestamp: u64, st: ScanV, name: Seq<char>) -> ScanV {
    match list_named(n, name, guild_id) {
        Some(id) => {
            let local = touch(st.local, id);
            if list_of(n.lists, id).ping_permission == PERMISSION::DENY && !admin {
                ScanV { invalid: st.invalid.push((name, ListInvalidReasons::ListRestrictPing)), ids: st.ids, local }
            } else if !admin && last_ping(st.local, id) + list_cooldown(n, guild_id, id) >= timestamp {
                ScanV { invalid: st.invalid.push((name, ListInvalidReasons::OnLocalCooldown)), ids: st.ids, local }
            } else {
                ScanV { invalid: st.invalid, ids: st.ids.push(id), local }
            }
        },
        None => ScanV { invalid: st.invalid.push((name, ListInvalidReasons::DoesNotExist)), ..st },
    }
}

pub open spec fn scan(n: DbView, guild_id: u64, admin: bool, timestamp: u64, start: ScanV, names: Seq<Seq<char>>) -> ScanV
    decreases names.len(),
{
    if names.len() == 0 {
        start
    } else {
        scan_step(n, guild_id, admin, timestamp, scan(n, guild_id, admin, timestamp, start, names.drop_last()), names.last())
    }
}

/// The outcome of checking a ping: the refusals, the lists that pass and the
/// local cooldowns after the lookups.
pub open spec fn ping_scan(
    n: DbView,
    guild_id: u64,
    user_id: u64,
    roles: Seq<u64>,
    channel_id: u64,
    admin: bool,
    cooldowns: CooldownsV,
    names: Seq<Seq<char>>,
    timestamp: u64,
) -> ScanV {
    let start = ScanV {
        invalid: ping_header(n, guild_id, user_id, roles, channel_id, admin, cooldowns.global, timestamp),
        ids: Seq::empty(),
        local: cooldowns.local,
    };
    scan(n, guild_id, admin, timestamp, start, names)
}

/// The user is a member of the list.
pub open spec fn listed_member(n: DbView, list_id: u64, user: u64) -> bool {
    exists|k: int| 0 <= k < n.memberships.len() && (#[trigger] n.memberships[k]).list_id == list_id
        && n.memberships[k].user_id == user
}

/// The user is a member of one of the lists.
pub open spec fn in_lists(n: DbView, ids: Seq<u64>, user: u64) -> bool {
    exists|j: int| 0 <= j < ids.len() && listed_member(n, #[trigger] ids[j], user)
}

pub open spec fn increasing(s: Seq<u64>) -> bool {
    forall|i: int, j: int| 0 <= i < j < s.len() ==> s[i] < s[j]
}

/// The first part of a ping: what is refused, which lists pass, and who is
/// in them (in increasing order, each once).
pub struct PingCheck {
    pub invalid: Vec<(String, ListInvalidReasons)>,
    pub list_ids: Vec<u64>,
    pub members: Vec<u64>,
}

pub open spec fn reasons_view(v: Seq<(String, ListInvalidReasons)>) -> Seq<(Seq<char>, ListInvalidReasons)> {
    v.map_values(|p: (String, ListInvalidReasons)| (p.0@, p.1))
}

pub open spec fn strings_of(v: Seq<String>) -> Seq<Seq<char>> {
    v.map_values(|s: String| s@)
}

/// Adds `x` to a vector kept in increasing order.
fn insert_sorted(v: &mut Vec<u64>, x: u64)
    requires
        increasing(old(v)@),
    ensures
        increasing(final(v)@),
        forall|u: u64| final(v)@.contains(u) <==> (old(v)@.contains(u) || u == x),
{
    let mut p: usize = 0;
    while p < v.len() && v[p] < x
        invariant
            p <= v.len(),
            v@ == old(v)@,
            forall|j: int| 0 <= j < p ==> v@[j] < x,
        decreases v.len() - p,
    {
        p += 1;
    }
    if p < v.len() && v[p] == x {
        assert(v@[p as int] == x);
        assert(v@.contains(x));
        return;
    }
    let ghost old_v = v@;
    v.insert(p, x);
    proof {
        assert forall|u: u64| v@.contains(u) <==> (old_v.contains(u) || u == x) by {
            if v@.contains(u) {
                let k = choose|k: int| 0 <= k < v@.len() && v@[k] == u;
                if k < p {
                    assert(old_v[k] == u);
                } else if k > p {
                    assert(old_v[k - 1] == u);
                }
            }
            if old_v.contains(u) {
                let k = choose|k: int| 0 <= k < old_v.len() && old_v[k] == u;
                if k < p {
                    assert(v@[k] == u);
                } else {
                    assert(v@[k + 1] == u);
                }
            }
            if u == x {
                assert(v@[p as int] == x);
            }
        }
        assert(old_v == old(v)@);
        assert(forall|u: u64| v@.contains(u) <==> (old(v)@.contains(u) || u == x));
    }
}


/// Adds `x` to a vector kept in increasing order.
pub(crate) fn insert_sorted_pub(v: &mut Vec<u64>, x: u64)
    requires
        increasing(old(v)@),
    ensures
        increasing(final(v)@),
        forall|u: u64| final(v)@.contains(u) <==> (old(v)@.contains(u) || u == x),
{
    insert_sorted(v, x)
}

/// Adds the members of a list to a vector kept in increasing order.
fn add_list_members(db: &mut Database, members: &mut Vec<u64>, list_id: u64)
    requires
        old(db)@.wf(),
        sql_int(list_id),
        increasing(old(members)@),
    ensures
        final(db)@ == old(db)@,
        increasing(final(members)@),
        forall|u: u64| final(members)@.contains(u) <==> (old(members)@.contains(u) || listed_member(old(db)@, list_id, u)),
{
    let ghost n = db@;
    let ms = db.get_members_in_list(list_id);
    let ghost f = member_of(list_id);
    let mut j: usize = 0;
    while j < ms.len()
        invariant
            j <= ms.len(),
            ms@ == n.memberships.filter_map(f),
            f == member_of(list_id),
            increasing(members@),
            forall|u: u64| members@.contains(u) <==> (old(members)@.contains(u) || ms@.take(j as int).contains(u)),
        decreases ms.len() - j,
    {
        let ghost before = members@;
        insert_sorted(members, ms[j]);
        proof {
            assert forall|u: u64| members@.contains(u) <==> (old(members)@.contains(u) || ms@.take(j + 1).contains(u)) by {
                if ms@.take(j + 1).contains(u) {
                    let k = choose|k: int| 0 <= k < j + 1 && #[trigger] ms@.take(j + 1)[k] == u;
                    if k < j {
                        assert(ms@.take(j as int)[k] == u);
                    }
                }
                if ms@.take(j as int).contains(u) {
                    let k = choose|k: int| 0 <= k < j && #[trigger] ms@.take(j as int)[k] == u;
                    assert(ms@.take(j + 1)[k] == u);
                }
                if u == ms@[j as int] {
                    assert(ms@.take(j + 1)[j as int] == u);
                }
            }
        }
        j += 1;
    }
    proof {
        assert(ms@.take(ms@.len() as int) =~= ms@);
        assert forall|u: u64| ms@.contains(u) <==> listed_member(n, list_id, u) by {
            if ms@.contains(u) {
                n.memberships.lemma_filter_map_contains(f, u);
                let t = choose|t: crate::database::MembershipRow| #[trigger] n.memberships.contains(t) && f(t) == Some(u);
                let k = choose|k: int| 0 <= k < n.memberships.len() && n.memberships[k] == t;
                assert(n.memberships[k].list_id == list_id);
            }
            if listed_member(n, list_id, u) {
                let k = choose|k: int| 0 <= k < n.memberships.len() && (#[trigger] n.memberships[k]).list_id == list_id
                    && n.memberships[k].user_id == u;
                lemma_filter_map_has(n.memberships, f, k);
            }
        }
    }
}

/// Every key whose row exists has it in the guild.
pub open spec fn settings_in_guild(rows: Seq<SettingRow>, guild_id: u64, keys: Seq<u64>) -> bool {
    forall|i: int| 0 <= i < keys.len() && setting_present(rows, #[trigger] keys[i]) ==> has_setting(rows, guild_id, keys[i])
}

pub(crate) proof fn lemma_settings_prefix(rows: Seq<SettingRow>, guild_id: u64, keys: Seq<u64>, i: int)
    requires
        0 <= i <= keys.len(),
    ensures
        ensure_settings(rows, guild_id, keys.take(i)).len() <= ensure_settings(rows, guild_id, keys).len(),
        forall|j: int| 0 <= j < ensure_settings(rows, guild_id, keys.take(i)).len()
            ==> ensure_settings(rows, guild_id, keys)[j] == #[trigger] ensure_settings(rows, guild_id, keys.take(i))[j],
    decreases keys.len(),
{
    if i == keys.len() {
        assert(keys.take(i) =~= keys);
    } else {
        let d = keys.drop_last();
        assert(keys.take(i) =~= d.take(i));
        lemma_settings_prefix(rows, guild_id, d, i);
    }
}

pub(crate) proof fn lemma_setting_of_prefix(a: Seq<SettingRow>, b: Seq<SettingRow>, guild_id: u64, key: u64)
    requires
        a.len() <= b.len(),
        forall|j: int| 0 <= j < a.len() ==> b[j] == #[trigger] a[j],
        has_setting(a, guild_id, key),
    ensures
        setting_of(b, guild_id, key) == setting_of(a, guild_id, key),
{
    let k = choose|j: int| 0 <= j < a.len() && (#[trigger] a[j]).subject_id == key && a[j].guild_id == guild_id;
    let mut m = k;
    // the first such row of `a`
    let i = choose|i: int| first_setting(a, guild_id, key, i);
    assert(exists|i: int| first_setting(a, guild_id, key, i)) by {
        lemma_first_setting_exists(a, guild_id, key, k);
    }
    lemma_first_setting(a, guild_id, key, i);
    assert(first_setting(b, guild_id, key, i)) by {
        assert forall|j: int| 0 <= j < i implies !((#[trigger] b[j]).subject_id == key && b[j].guild_id == guild_id) by {
            assert(b[j] == a[j]);
        }
    }
    lemma_first_setting(b, guild_id, key, i);
}

proof fn lemma_first_setting_exists(rows: Seq<SettingRow>, guild_id: u64, key: u64, k: int)
    requires
        0 <= k < rows.len(),
        rows[k].subject_id == key,
        rows[k].guild_id == guild_id,
    ensures
        exists|i: int| first_setting(rows, guild_id, key, i),
    decreases k,
{
    if forall|j: int| 0 <= j < k ==> !((#[trigger] rows[j]).subject_id == key && rows[j].guild_id == guild_id) {
        assert(first_setting(rows, guild_id, key, k));
    } else {
        let j = choose|j: int| 0 <= j < k && !!((#[trigger] rows[j]).subject_id == key && rows[j].guild_id == guild_id);
        lemma_first_setting_exists(rows, guild_id, key, j);
    }
}

/// Checks a ping: works out the member's permission and cooldown exemption
/// from its user and role rows, looks up each named list, and collects the
/// refusals, the lists that pass and their members. The guild's and the
/// found lists' cooldown entries are created (at 0) where missing.
pub fn ping_check(
    db: &mut Database,
    cooldowns: &mut Cooldowns,
    guild_id: u64,
    channel_id: u64,
    user_id: u64,
    roles: &Vec<u64>,
    member_admin: bool,
    list_names: &Vec<String>,
    timestamp: u64,
) -> (res: PingCheck)
    requires
        old(db)@.wf(),
        sql_int(guild_id),
        sql_int(channel_id),
        sql_int(user_id),
        forall|i: int| 0 <= i < roles.len() ==> sql_int(#[trigger] roles@[i]),
        permissions_readable(old(db)@, guild_id, user_id, roles@),
    ensures
        final(db)@.wf(),
        final(db)@ == ping_db(old(db)@, guild_id, user_id, roles@, channel_id),
        final(cooldowns)@.global == touch(old(cooldowns)@.global, guild_id),
        ({
            let st = ping_scan(final(db)@, guild_id, user_id, roles@, channel_id, member_admin, old(cooldowns)@,
                strings_of(list_names@), timestamp);
            &&& reasons_view(res.invalid@) == st.invalid
            &&& res.list_ids@ == st.ids
            &&& final(cooldowns)@.local == st.local
        }),
        increasing(res.members@),
        forall|u: u64| res.members@.contains(u) <==> in_lists(final(db)@, res.list_ids@, u),
{
    let ghost v = db@;
    let ghost n = ping_db(v, guild_id, user_id, roles@, channel_id);
    let ghost rr = ensure_settings(v.roles, guild_id, roles@);
    let mut override_canping = if member_admin {
        PERMISSION::ALLOW
    } else {
        PERMISSION::NEUTRAL
    };
    let mut ignore_cooldown = member_admin;
    let (_, user_canping, user_ignore) = db.get_user_permissions(guild_id, user_id);
    ignore_cooldown = ignore_cooldown || user_ignore;
    override_canping = override_canping.combine(user_canping);
    let ghost start = override_canping;
    let ghost start_ignore = ignore_cooldown;
    proof {
        assert(roles@.take(0) =~= Seq::<u64>::empty());
        assert(ensure_settings(v.roles, guild_id, roles@.take(0)) == v.roles);
    }
    let mut i: usize = 0;
    while i < roles.len()
        invariant
            i <= roles.len(),
            db@.wf(),
            db@ == v.with_users(ensure_setting(v.users, guild_id, user_id))
                .with_roles(ensure_settings(v.roles, guild_id, roles@.take(i as int))),
            rr == ensure_settings(v.roles, guild_id, roles@),
            settings_in_guild(db@.roles, guild_id, roles@),
            has_guild_row(v.guilds, guild_id),
            sql_int(guild_id),
            forall|j: int| 0 <= j < roles.len() ==> sql_int(#[trigger] roles@[j]),
            override_canping == roles_ping(rr, guild_id, roles@.take(i as int), start),
            ignore_cooldown == (start_ignore || roles_ignore(rr, guild_id, roles@.take(i as int))),
        decreases roles.len() - i,
    {
        let r = roles[i];
        let ghost before = db@.roles;
        proof {
            assert(roles@[i as int] == r);
        }
        let (_, role_canping, role_ignore) = db.get_role_permissions(guild_id, r);
        proof {
            let t = roles@.take(i + 1);
            assert(t.drop_last() =~= roles@.take(i as int));
            assert(t.last() == r);
            let rows = db@.roles;
            assert(rows == ensure_settings(v.roles, guild_id, t));
            assert(has_setting(rows, guild_id, r)) by {
                if setting_present(before, r) {
                    let j = choose|j: int| 0 <= j < before.len() && (#[trigger] before[j]).subject_id == r
                        && before[j].guild_id == guild_id;
                    assert(rows[j] == before[j]);
                } else {
                    assert(rows[before.len() as int].subject_id == r);
                }
            }
            lemma_settings_prefix(v.roles, guild_id, roles@, i + 1);
            lemma_setting_of_prefix(rows, rr, guild_id, r);
            assert forall|k: int| 0 <= k < roles@.len() && setting_present(rows, #[trigger] roles@[k])
                implies has_setting(rows, guild_id, roles@[k]) by {
                let key = roles@[k];
                let j = choose|j: int| 0 <= j < rows.len() && (#[trigger] rows[j]).subject_id == key;
                if j < before.len() {
                    assert(before[j] == rows[j]);
                    assert(setting_present(before, key));
                    let q = choose|q: int| 0 <= q < before.len() && (#[trigger] before[q]).subject_id == key
                        && before[q].guild_id == guild_id;
                    assert(rows[q] == before[q]);
                } else {
                    assert(rows[j].guild_id == guild_id);
                }
            }
        }
        override_canping = override_canping.combine(role_canping);
        ignore_cooldown = ignore_cooldown || role_ignore;
        i += 1;
    }
    proof {
        assert(roles@.take(roles.len() as int) =~= roles@);
    }
    let (general_cooldown, general_canping, pingcooldown) = db.get_guild_ping_data(guild_id);
    let (_, channel_rule, _) = db.get_channel_permissions(guild_id, channel_id);
    let ghost header = ping_header(n, guild_id, user_id, roles@, channel_id, member_admin, cooldowns@.global, timestamp);
    let ghost local0 = cooldowns@.local;
    assert(db@ == n);
    let mut invalid: Vec<(String, ListInvalidReasons)> = Vec::new();
    if override_canping == PERMISSION::DENY {
        invalid.push((String::from_str("all"), ListInvalidReasons::RoleRestrictPing));
    } else if override_canping == PERMISSION::NEUTRAL {
        if !general_canping {
            invalid.push((String::from_str("all"), ListInvalidReasons::GuildRestrictPing));
        } else if channel_rule == PERMISSION::DENY {
            invalid.push((String::from_str("all"), ListInvalidReasons::ChannelRestrictPing));
        }
    }
    let last_global = touch_key(&mut cooldowns.global, guild_id);
    if !ignore_cooldown && last_global as u128 + general_cooldown as u128 >= timestamp as u128 {
        invalid.push((String::from_str("all"), ListInvalidReasons::OnGlobalCooldown));
    }
    proof {
        assert(reasons_view(invalid@) =~= header);
    }
    let ghost st0 = ScanV { invalid: header, ids: Seq::empty(), local: local0 };
    let ghost names = strings_of(list_names@);
    let mut ids: Vec<u64> = Vec::new();
    let mut members: Vec<u64> = Vec::new();
    let mut k: usize = 0;
    proof {
        assert(names.take(0) =~= Seq::<Seq<char>>::empty());
    }
    while k < list_names.len()
        invariant
            k <= list_names.len(),
            db@ == n,
            n.wf(),
            sql_int(guild_id),
            names == strings_of(list_names@),
            pingcooldown == guild_of(n.guilds, guild_id).pingcooldown,
            ({
                let st = scan(n, guild_id, member_admin, timestamp, st0, names.take(k as int));
                &&& reasons_view(invalid@) == st.invalid
                &&& ids@ == st.ids
                &&& cooldowns@.local == st.local
            }),
            cooldowns@.global == touch(old(cooldowns)@.global, guild_id),
            increasing(members@),
            forall|u: u64| members@.contains(u) <==> in_lists(n, ids@, u),
        decreases list_names.len() - k,
    {
        let name = &list_names[k];
        let ghost st = scan(n, guild_id, member_admin, timestamp, st0, names.take(k as int));
        proof {
            assert(names.take(k + 1).drop_last() =~= names.take(k as int));
            assert(names.take(k + 1).last() == name@);
        }
        let ghost inv_before = invalid@;
        match db.get_list_id_by_name(name.as_str(), guild_id) {
            Some(id) => {
                proof {
                    lemma_list_named_some(n, name@, guild_id);
                    let j = choose|j: int| 0 <= j < n.lists.len() && #[trigger] n.lists[j].id == id;
                    assert(crate::database::list_row_ok(n.lists[j]));
                    crate::db_lists::lemma_list_of(n.lists, id, j);
                }
                let last = touch_key(&mut cooldowns.local, id);
                let (cd, _, perm) = db.get_list_permissions(id);
                let eff: u128 = if cd == -1 {
                    pingcooldown as u128
                } else {
                    cd as u128
                };
                if perm == PERMISSION::DENY && !member_admin {
                    invalid.push((name.clone(), ListInvalidReasons::ListRestrictPing));
                    proof {
                        assert(reasons_view(invalid@) =~= reasons_view(inv_before).push((name@, ListInvalidReasons::ListRestrictPing)));
                    }
                } else if !member_admin && last as u128 + eff >= timestamp as u128 {
                    invalid.push((name.clone(), ListInvalidReasons::OnLocalCooldown));
                    proof {
                        assert(reasons_view(invalid@) =~= reasons_view(inv_before).push((name@, ListInvalidReasons::OnLocalCooldown)));
                    }
                } else {
                    let ghost old_ids = ids@;
                    add_list_members(db, &mut members, id);
                    ids.push(id);
                    proof {
                        assert forall|u: u64| members@.contains(u) <==> in_lists(n, ids@, u) by {
                            if in_lists(n, ids@, u) {
                                let j = choose|j: int| 0 <= j < ids@.len() && listed_member(n, #[trigger] ids@[j], u);
                                if j < old_ids.len() {
                                    assert(old_ids[j] == ids@[j]);
                                    assert(in_lists(n, old_ids, u));
                                }
                            }
                            if in_lists(n, old_ids, u) {
                                let j = choose|j: int| 0 <= j < old_ids.len() && listed_member(n, #[trigger] old_ids[j], u);
                                assert(ids@[j] == old_ids[j]);
                            }
                            if listed_member(n, id, u) {
                                assert(ids@[old_ids.len() as int] == id);
                            }
                        }
                    }
                }
            },
            None => {
                invalid.push((name.clone(), ListInvalidReasons::DoesNotExist));
                proof {
                    assert(reasons_view(invalid@) =~= reasons_view(inv_before).push((name@, ListInvalidReasons::DoesNotExist)));
                }
            },
        }
        k += 1;
    }
    proof {
        assert(names.take(list_names.len() as int) =~= names);
    }
    PingCheck { invalid, list_ids: ids, members }
}


// ---------------------------------------------------------------------------
// The answer to a checked ping
// ---------------------------------------------------------------------------

/// What a ping sends: the first message answers the command (hidden from
/// others when `ephemeral`), the others follow it.
pub struct PingReply {
    pub messages: Vec<String>,
    pub ephemeral: bool,
}

pub struct PingReplyV {
    pub messages: Seq<Seq<char>>,
    pub ephemeral: bool,
}

impl View for PingReply {
    type V = PingReplyV;

    open spec fn view(&self) -> PingReplyV {
        PingReplyV { messages: strings_of(self.messages@), ephemeral: self.ephemeral }
    }
}

/// The message line for one refusal.
pub open spec fn reason_text(name: Seq<char>, r: ListInvalidReasons) -> Seq<char> {
    match r {
        ListInvalidReasons::ChannelRestrictPing => "\nPings are not allowed in this channel."@,
        ListInvalidReasons::DoesNotExist => "\nThe list "@ + name + " does not exist."@,
        ListInvalidReasons::GuildRestrictPing => "\nYou do not have permission to ping in this server."@,
        ListInvalidReasons::ListRestrictPing => "\nThe list "@ + name + " cannot be pinged."@,
        ListInvalidReasons::OnGlobalCooldown => "\nAnother ping has happed recently, please try again later."@,
        ListInvalidReasons::OnLocalCooldown => "\nThe list "@ + name
            + " has been pinged recently, please try again later or exclude this list."@,
        ListInvalidReasons::RoleRestrictPing => "One of your roles prevents you from using the ping command.\n"@,
    }
}

pub open spec fn reasons_text(rs: Seq<(Seq<char>, ListInvalidReasons)>) -> Seq<char>
    decreases rs.len(),
{
    if rs.len() == 0 {
        Seq::empty()
    } else {
        reasons_text(rs.drop_last()) + reason_text(rs.last().0, rs.last().1)
    }
}

/// The members that are still in the guild, in the members' order.
pub open spec fn present_members(members: Seq<u64>, present: Seq<u64>) -> Seq<u64>
    decreases members.len(),
{
    if members.len() == 0 {
        Seq::empty()
    } else if present.contains(members.last()) {
        present_members(members.drop_last(), present).push(members.last())
    } else {
        present_members(members.drop_last(), present)
    }
}

pub open spec fn mention(id: u64) -> Seq<char> {
    "<@"@ + dec(id as nat) + ">, "@
}

pub open spec fn mention_header(names: Seq<Seq<char>>, count: nat) -> Seq<char> {
    "Mentioning "@ + join_seq(names, ", "@) + " with "@ + dec(count) + " members:\n"@
}

/// A message is sent as soon as it is longer than 1940 bytes.
pub open spec fn chunk_step(st: (Seq<Seq<char>>, Seq<char>), piece: Seq<char>) -> (Seq<Seq<char>>, Seq<char>) {
    let c = st.1 + piece;
    if byte_len(c) > 1940 {
        (st.0.push(c), Seq::empty())
    } else {
        (st.0, c)
    }
}

/// The messages sent so far and the text not sent yet, after mentioning
/// `ids` below the header.
pub open spec fn chunk_run(head: Seq<char>, ids: Seq<u64>) -> (Seq<Seq<char>>, Seq<char>)
    decreases ids.len(),
{
    if ids.len() == 0 {
        (Seq::empty(), head)
    } else {
        chunk_step(chunk_run(head, ids.drop_last()), mention(ids.last()))
    }
}

/// The messages a checked ping sends.
pub open spec fn ping_messages(
    invalid: Seq<(Seq<char>, ListInvalidReasons)>,
    members: Seq<u64>,
    present: Seq<u64>,
    names: Seq<Seq<char>>,
) -> PingReplyV {
    if invalid.len() > 0 {
        PingReplyV { messages: seq![reasons_text(invalid)], ephemeral: true }
    } else {
        let ms = present_members(members, present);
        if ms.len() == 0 {
            PingReplyV { messages: seq!["These lists are empty."@], ephemeral: false }
        } else {
            let r = chunk_run(mention_header(names, ms.len()), ms);
            PingReplyV { messages: r.0.push(r.1), ephemeral: false }
        }
    }
}

/// Every list gets the time stamp.
pub open spec fn stamp(m: Map<u64, u64>, ids: Seq<u64>, t: u64) -> Map<u64, u64>
    decreases ids.len(),
{
    if ids.len() == 0 {
        m
    } else {
        stamp(m, ids.drop_last(), t).insert(ids.last(), t)
    }
}

fn push_reason(s: &mut String, name: &String, r: ListInvalidReasons)
    ensures
        final(s)@ == old(s)@ + reason_text(name@, r),
{
    let ghost s0 = s@;
    match r {
        ListInvalidReasons::ChannelRestrictPing => s.append("\nPings are not allowed in this channel."),
        ListInvalidReasons::DoesNotExist => {
            s.append("\nThe list ");
            s.append(name.as_str());
            s.append(" does not exist.");
        },
        ListInvalidReasons::GuildRestrictPing => s.append("\nYou do not have permission to ping in this server."),
        ListInvalidReasons::ListRestrictPing => {
            s.append("\nThe list ");
            s.append(name.as_str());
            s.append(" cannot be pinged.");
        },
        ListInvalidReasons::OnGlobalCooldown => s.append("\nAnother ping has happed recently, please try again later."),
        ListInvalidReasons::OnLocalCooldown => {
            s.append("\nThe list ");
            s.append(name.as_str());
            s.append(" has been pinged recently, please try again later or exclude this list.");
        },
        ListInvalidReasons::RoleRestrictPing => s.append("One of your roles prevents you from using the ping command.\n"),
    }
    assert(s@ =~= s0 + reason_text(name@, r));
}

/// The second part of a ping, once the guild's present members are known:
/// refuses with every reason when something was refused; otherwise stamps
/// the guild and the lists with the time and mentions the members that are
/// still present, in messages of just over 1940 bytes at most.
pub fn ping_reply(
    cooldowns: &mut Cooldowns,
    guild_id: u64,
    check: &PingCheck,
    present: &Vec<u64>,
    list_names: &Vec<String>,
    timestamp: u64,
) -> (res: PingReply)
    ensures
        res@ == ping_messages(reasons_view(check.invalid@), check.members@, present@, strings_of(list_names@)),
        check.invalid@.len() > 0 ==> final(cooldowns)@ == old(cooldowns)@,
        check.invalid@.len() == 0 ==> final(cooldowns)@.global == old(cooldowns)@.global.insert(guild_id, timestamp)
            && final(cooldowns)@.local == stamp(old(cooldowns)@.local, check.list_ids@, timestamp),
{
    if check.invalid.len() > 0 {
        let ghost rs = reasons_view(check.invalid@);
        let mut content = String::new();
        let mut i: usize = 0;
        while i < check.invalid.len()
            invariant
                i <= check.invalid.len(),
                rs == reasons_view(check.invalid@),
                content@ == reasons_text(rs.take(i as int)),
            decreases check.invalid.len() - i,
        {
            proof {
                assert(rs.take(i + 1).drop_last() =~= rs.take(i as int));
            }
            push_reason(&mut content, &check.invalid[i].0, check.invalid[i].1);
            i += 1;
        }
        proof {
            assert(rs.take(check.invalid.len() as int) =~= rs);
        }
        let mut messages: Vec<String> = Vec::new();
        messages.push(content);
        proof {
            assert(strings_of(messages@) =~= seq![reasons_text(rs)]);
        }
        return PingReply { messages, ephemeral: true };
    }
    let mut pset: HashSet<u64> = HashSet::new();
    let mut i: usize = 0;
    while i < present.len()
        invariant
            i <= present.len(),
            forall|x: u64| pset@.contains(x) <==> present@.take(i as int).contains(x),
        decreases present.len() - i,
    {
        let ghost before = pset@;
        pset.insert(present[i]);
        proof {
            assert forall|x: u64| pset@.contains(x) <==> present@.take(i + 1).contains(x) by {
                if present@.take(i + 1).contains(x) {
                    let k = choose|k: int| 0 <= k < i + 1 && #[trigger] present@.take(i + 1)[k] == x;
                    if k < i {
                        assert(present@.take(i as int)[k] == x);
                    }
                }
                if present@.take(i as int).contains(x) {
                    let k = choose|k: int| 0 <= k < i && #[trigger] present@.take(i as int)[k] == x;
                    assert(present@.take(i + 1)[k] == x);
                }
                if x == present@[i as int] {
                    assert(present@.take(i + 1)[i as int] == x);
                }
            }
        }
        i += 1;
    }
    proof {
        assert(present@.take(present.len() as int) =~= present@);
    }
    let mut ms: Vec<u64> = Vec::new();
    let mut j: usize = 0;
    while j < check.members.len()
        invariant
            j <= check.members.len(),
            forall|x: u64| pset@.contains(x) <==> present@.contains(x),
            ms@ == present_members(check.members@.take(j as int), present@),
        decreases check.members.len() - j,
    {
        proof {
            assert(check.members@.take(j + 1).drop_last() =~= check.members@.take(j as int));
        }
        let m = check.members[j];
        if pset.contains(&m) {
            ms.push(m);
        }
        j += 1;
    }
    proof {
        assert(check.members@.take(check.members.len() as int) =~= check.members@);
    }
    cooldowns.global.insert(guild_id, timestamp);
    let ghost local0 = cooldowns@.local;
    let mut k: usize = 0;
    while k < check.list_ids.len()
        invariant
            k <= check.list_ids.len(),
            cooldowns@.local == stamp(local0, check.list_ids@.take(k as int), timestamp),
            cooldowns@.global == old(cooldowns)@.global.insert(guild_id, timestamp),
            local0 == old(cooldowns)@.local,
        decreases check.list_ids.len() - k,
    {
        proof {
            assert(check.list_ids@.take(k + 1).drop_last() =~= check.list_ids@.take(k as int));
        }
        cooldowns.local.insert(check.list_ids[k], timestamp);
        k += 1;
    }
    proof {
        assert(check.list_ids@.take(check.list_ids.len() as int) =~= check.list_ids@);
    }
    let mut messages: Vec<String> = Vec::new();
    if ms.len() == 0 {
        messages.push(String::from_str("These lists are empty."));
        proof {
            assert(strings_of(messages@) =~= seq!["These lists are empty."@]);
        }
        return PingReply { messages, ephemeral: false };
    }
    let ghost names = strings_of(list_names@);
    let mut content = String::from_str("Mentioning ");
    let joined = join_strings(list_names, ", ");
    content.append(joined.as_str());
    content.append(" with ");
    push_dec(&mut content, ms.len() as u128);
    content.append(" members:\n");
    let ghost head = content@;
    assert(head == mention_header(names, ms@.len()));
    let mut nbytes = utf8_len(content.as_str());
    let ghost hb = nbytes as int;
    let mut q: usize = 0;
    proof {
        assert(ms@.take(0) =~= Seq::<u64>::empty());
    }
    while q < ms.len()
        invariant
            q <= ms.len(),
            hb <= 4 * (usize::MAX as int),
            nbytes == byte_len(content@),
            nbytes <= hb || nbytes <= 1940,
            (strings_of(messages@), content@) == chunk_run(head, ms@.take(q as int)),
        decreases ms.len() - q,
    {
        proof {
            assert(ms@.take(q + 1).drop_last() =~= ms@.take(q as int));
        }
        let mut piece = String::from_str("<@");
        push_dec(&mut piece, ms[q] as u128);
        piece.append(">, ");
        let pb = utf8_len(piece.as_str());
        let ghost c0 = content@;
        content.append(piece.as_str());
        proof {
            lemma_byte_len_concat(c0, piece@);
        }
        nbytes = nbytes + pb;
        if nbytes > 1940 {
            let ghost before = messages@;
            messages.push(content);
            content = String::new();
            nbytes = 0;
            proof {
                assert(strings_of(messages@) =~= strings_of(before).push(c0 + piece@));
            }
        }
        q += 1;
    }
    proof {
        assert(ms@.take(ms.len() as int) =~= ms@);
    }
    let ghost before = messages@;
    messages.push(content);
    proof {
        let r = chunk_run(head, ms@);
        assert(strings_of(messages@) =~= strings_of(before).push(r.1));
    }
    PingReply { messages, ephemeral: false }
}


/// A settings row's propose and ping permissions and cooldown exemption.
pub open spec fn setting_triple(r: SettingRow) -> (PERMISSION, PERMISSION, bool) {
    (r.propose_permission, r.ping_permission, r.ignore_gbcooldown)
}

/// Reads each role's settings row in turn (making the missing ones), as the
/// permission checks do: the result holds each role's row in the store
/// afterwards.
pub(crate) fn read_role_settings(db: &mut Database, guild_id: u64, roles: &Vec<u64>) -> (res: Vec<(PERMISSION, PERMISSION, bool)>)
    requires
        old(db)@.wf(),
        sql_int(guild_id),
        forall|i: int| 0 <= i < roles.len() ==> sql_int(#[trigger] roles@[i]),
        has_guild_row(old(db)@.guilds, guild_id),
        settings_in_guild(old(db)@.roles, guild_id, roles@),
    ensures
        final(db)@.wf(),
        final(db)@ == old(db)@.with_roles(ensure_settings(old(db)@.roles, guild_id, roles@)),
        res@.len() == roles@.len(),
        forall|i: int| 0 <= i < roles@.len() ==> #[trigger] res@[i] == setting_triple(setting_of(final(db)@.roles, guild_id, roles@[i])),
{
    let ghost v = db@;
    let ghost rr = ensure_settings(v.roles, guild_id, roles@);
    let mut res: Vec<(PERMISSION, PERMISSION, bool)> = Vec::new();
    proof {
        assert(roles@.take(0) =~= Seq::<u64>::empty());
        assert(v.with_roles(ensure_settings(v.roles, guild_id, roles@.take(0))) == v);
    }
    let mut i: usize = 0;
    while i < roles.len()
        invariant
            i <= roles.len(),
            db@.wf(),
            db@ == v.with_roles(ensure_settings(v.roles, guild_id, roles@.take(i as int))),
            rr == ensure_settings(v.roles, guild_id, roles@),
            settings_in_guild(db@.roles, guild_id, roles@),
            has_guild_row(v.guilds, guild_id),
            sql_int(guild_id),
            forall|j: int| 0 <= j < roles.len() ==> sql_int(#[trigger] roles@[j]),
            res@.len() == i,
            forall|j: int| 0 <= j < i ==> #[trigger] res@[j] == setting_triple(setting_of(rr, guild_id, roles@[j])),
        decreases roles.len() - i,
    {
        let r = roles[i];
        let ghost before = db@.roles;
        proof {
            assert(roles@[i as int] == r);
        }
        let (p, q, c) = db.get_role_permissions(guild_id, r);
        proof {
            let t = roles@.take(i + 1);
            assert(t.drop_last() =~= roles@.take(i as int));
            assert(t.last() == r);
            let rows = db@.roles;
            assert(rows == ensure_settings(v.roles, guild_id, t));
            assert(has_setting(rows, guild_id, r)) by {
                if setting_present(before, r) {
                    let j = choose|j: int| 0 <= j < before.len() && (#[trigger] before[j]).subject_id == r
                        && before[j].guild_id == guild_id;
                    assert(rows[j] == before[j]);
                } else {
                    assert(rows[before.len() as int].subject_id == r);
                }
            }
            lemma_settings_prefix(v.roles, guild_id, roles@, i + 1);
            lemma_setting_of_prefix(rows, rr, guild_id, r);
            assert forall|k: int| 0 <= k < roles@.len() && setting_present(rows, #[trigger] roles@[k])
                implies has_setting(rows, guild_id, roles@[k]) by {
                let key = roles@[k];
                let j = choose|j: int| 0 <= j < rows.len() && (#[trigger] rows[j]).subject_id == key;
                if j < before.len() {
                    assert(before[j] == rows[j]);
                    assert(setting_present(before, key));
                    let q = choose|q: int| 0 <= q < before.len() && (#[trigger] before[q]).subject_id == key
                        && before[q].guild_id == guild_id;
                    assert(rows[q] == before[q]);
                } else {
                    assert(rows[j].guild_id == guild_id);
                }
            }
        }
        res.push((p, q, c));
        i += 1;
    }
    proof {
        assert(roles@.take(roles.len() as int) =~= roles@);
    }
    res
}

} // verus!
