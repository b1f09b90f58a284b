use vstd::prelude::*;

use crate::database::{AliasV, DbView, ListV, SettingRow, guild_of};
use crate::db_lists::{guild_list_of, list_of, search_hit};
use crate::db_settings::{channel_of, setting_of};
use crate::lists::list_hits;
use crate::ping::{CooldownsV, ListInvalidReasons, for_all, ping_override, ping_scan, roles_ping};
use crate::proposing::{propose_base, propose_override, roles_propose};
use crate::structures::{PERMISSION, perm_rank};

verus! {

// ---------------------------------------------------------------------------
// Who may ping and propose
// ---------------------------------------------------------------------------

/// Combining the roles' ping settings into `start` gives the largest of `start`
/// and each role's setting.
proof fn lemma_roles_ping_largest(rows: Seq<SettingRow>, guild_id: u64, roles: Seq<u64>, start: PERMISSION)
    ensures
        perm_rank(start) <= perm_rank(roles_ping(rows, guild_id, roles, start)),
        forall|k: int| 0 <= k < roles.len() ==> perm_rank(setting_of(rows, guild_id, #[trigger] roles[k]).ping_permission)
            <= perm_rank(roles_ping(rows, guild_id, roles, start)),
        roles_ping(rows, guild_id, roles, start) == start || exists|k: int| 0 <= k < roles.len()
            && roles_ping(rows, guild_id, roles, start) == setting_of(rows, guild_id, #[trigger] roles[k]).ping_permission,
    decreases roles.len(),
{
    if roles.len() > 0 {
        let d = roles.drop_last();
        lemma_roles_ping_largest(rows, guild_id, d, start);
        assert forall|k: int| 0 <= k < d.len() implies #[trigger] roles[k] == d[k] by {}
        let last = roles.len() - 1;
        assert(roles[last] == roles.last());
    }
}

/// Combining the roles' propose settings into `start` gives the largest of
/// `start` and each role's setting.
proof fn lemma_roles_propose_largest(n: DbView, guild_id: u64, roles: Seq<u64>, start: PERMISSION)
    ensures
        perm_rank(start) <= perm_rank(roles_propose(n, guild_id, roles, start)),
        forall|k: int| 0 <= k < roles.len() ==> perm_rank(setting_of(n.roles, guild_id, #[trigger] roles[k]).propose_permission)
            <= perm_rank(roles_propose(n, guild_id, roles, start)),
        roles_propose(n, guild_id, roles, start) == start || exists|k: int| 0 <= k < roles.len()
            && roles_propose(n, guild_id, roles, start) == setting_of(n.roles, guild_id, #[trigger] roles[k]).propose_permission,
    decreases roles.len(),
{
    if roles.len() > 0 {
        let d = roles.drop_last();
        lemma_roles_propose_largest(n, guild_id, d, start);
        assert forall|k: int| 0 <= k < d.len() implies #[trigger] roles[k] == d[k] by {}
        let last = roles.len() - 1;
        assert(roles[last] == roles.last());
    }
}

/// The permission a ping is checked against is the largest, in the order
/// `NEUTRAL < DENY < ALLOW`, of: `ALLOW` for a moderator (`NEUTRAL` for anyone
/// else), the user's own ping setting, and each role's ping setting.
pub proof fn law_ping_permission_is_largest(n: DbView, guild_id: u64, user_id: u64, roles: Seq<u64>, admin: bool)
    ensures
        ({
            let o = ping_override(n, guild_id, user_id, roles, admin);
            let base = if admin { PERMISSION::ALLOW } else { PERMISSION::NEUTRAL };
            let own = setting_of(n.users, guild_id, user_id).ping_permission;
            &&& perm_rank(base) <= perm_rank(o)
            &&& perm_rank(own) <= perm_rank(o)
            &&& forall|k: int| 0 <= k < roles.len()
                ==> perm_rank(setting_of(n.roles, guild_id, #[trigger] roles[k]).ping_permission) <= perm_rank(o)
            &&& o == base || o == own || exists|k: int| 0 <= k < roles.len()
                && o == setting_of(n.roles, guild_id, #[trigger] roles[k]).ping_permission
        }),
{
    let base = if admin { PERMISSION::ALLOW } else { PERMISSION::NEUTRAL };
    let own = setting_of(n.users, guild_id, user_id).ping_permission;
    lemma_roles_ping_largest(n.roles, guild_id, roles, crate::structures::perm_max(base, own));
}

/// A ping by a member who is not a moderator, whose own ping setting or one of
/// whose roles' ping settings is `DENY` and none of them `ALLOW`, is refused as
/// a whole: its first reason is `RoleRestrictPing` for all lists, and nothing is
/// pinged while a reason stands.
pub proof fn law_ping_denied_member_is_refused(
    n: DbView,
    guild_id: u64,
    user_id: u64,
    roles: Seq<u64>,
    channel_id: u64,
    admin: bool,
    cooldowns: CooldownsV,
    names: Seq<Seq<char>>,
    timestamp: u64,
)
    requires
        !admin,
        setting_of(n.users, guild_id, user_id).ping_permission != PERMISSION::ALLOW,
        forall|k: int| 0 <= k < roles.len() ==> setting_of(n.roles, guild_id, #[trigger] roles[k]).ping_permission
            != PERMISSION::ALLOW,
        setting_of(n.users, guild_id, user_id).ping_permission == PERMISSION::DENY || exists|k: int| 0 <= k < roles.len()
            && setting_of(n.roles, guild_id, #[trigger] roles[k]).ping_permission == PERMISSION::DENY,
    ensures
        ping_scan(n, guild_id, user_id, roles, channel_id, admin, cooldowns, names, timestamp).invalid.len() > 0,
        ping_scan(n, guild_id, user_id, roles, channel_id, admin, cooldowns, names, timestamp).invalid[0]
            == for_all(ListInvalidReasons::RoleRestrictPing),
{
    law_ping_permission_is_largest(n, guild_id, user_id, roles, admin);
    let o = ping_override(n, guild_id, user_id, roles, admin);
    if setting_of(n.users, guild_id, user_id).ping_permission != PERMISSION::DENY {
        let k = choose|k: int| 0 <= k < roles.len()
            && setting_of(n.roles, guild_id, #[trigger] roles[k]).ping_permission == PERMISSION::DENY;
        assert(perm_rank(setting_of(n.roles, guild_id, roles[k]).ping_permission) <= perm_rank(o));
    }
    if o != PERMISSION::DENY {
        if o != PERMISSION::NEUTRAL && o != setting_of(n.users, guild_id, user_id).ping_permission {
            let k = choose|k: int| 0 <= k < roles.len() && o == setting_of(n.roles, guild_id, #[trigger] roles[k]).ping_permission;
            assert(setting_of(n.roles, guild_id, roles[k]).ping_permission != PERMISSION::ALLOW);
        }
    }
    assert(o == PERMISSION::DENY);
    let header = crate::ping::ping_header(n, guild_id, user_id, roles, channel_id, admin, cooldowns.global, timestamp);
    assert(header[0] == for_all(ListInvalidReasons::RoleRestrictPing));
    let start = crate::ping::ScanV { invalid: header, ids: Seq::empty(), local: cooldowns.local };
    crate::laws::law_scan_accounts_for_each_name(n, guild_id, admin, timestamp, start, names);
    let r = ping_scan(n, guild_id, user_id, roles, channel_id, admin, cooldowns, names, timestamp);
    assert(r.invalid.subrange(0, header.len() as int)[0] == r.invalid[0]);
}

/// A ping by a member who is not a moderator and whose own and roles' ping
/// settings are all `NEUTRAL` follows the guild and the channel: where the guild
/// does not let everyone ping it is refused with `GuildRestrictPing`, and where
/// the guild does but the channel forbids mentioning, with `ChannelRestrictPing`.
pub proof fn law_ping_follows_guild_and_channel(
    n: DbView,
    guild_id: u64,
    user_id: u64,
    roles: Seq<u64>,
    channel_id: u64,
    admin: bool,
    cooldowns: CooldownsV,
    names: Seq<Seq<char>>,
    timestamp: u64,
)
    requires
        !admin,
        setting_of(n.users, guild_id, user_id).ping_permission == PERMISSION::NEUTRAL,
        forall|k: int| 0 <= k < roles.len() ==> setting_of(n.roles, guild_id, #[trigger] roles[k]).ping_permission
            == PERMISSION::NEUTRAL,
        !guild_of(n.guilds, guild_id).general_canping
            || channel_of(n.channels, channel_id).override_mentioning == PERMISSION::DENY,
    ensures
        ({
            let r = ping_scan(n, guild_id, user_id, roles, channel_id, admin, cooldowns, names, timestamp);
            &&& r.invalid.len() > 0
            &&& !guild_of(n.guilds, guild_id).general_canping ==> r.invalid[0] == for_all(ListInvalidReasons::GuildRestrictPing)
            &&& guild_of(n.guilds, guild_id).general_canping ==> r.invalid[0] == for_all(ListInvalidReasons::ChannelRestrictPing)
        }),
{
    law_ping_permission_is_largest(n, guild_id, user_id, roles, admin);
    let o = ping_override(n, guild_id, user_id, roles, admin);
    if o != PERMISSION::NEUTRAL && o != setting_of(n.users, guild_id, user_id).ping_permission {
        let k = choose|k: int| 0 <= k < roles.len() && o == setting_of(n.roles, guild_id, #[trigger] roles[k]).ping_permission;
        assert(setting_of(n.roles, guild_id, roles[k]).ping_permission == PERMISSION::NEUTRAL);
    }
    assert(o == PERMISSION::NEUTRAL);
    let header = crate::ping::ping_header(n, guild_id, user_id, roles, channel_id, admin, cooldowns.global, timestamp);
    let start = crate::ping::ScanV { invalid: header, ids: Seq::empty(), local: cooldowns.local };
    crate::laws::law_scan_accounts_for_each_name(n, guild_id, admin, timestamp, start, names);
    let r = ping_scan(n, guild_id, user_id, roles, channel_id, admin, cooldowns, names, timestamp);
    assert(r.invalid.subrange(0, header.len() as int)[0] == r.invalid[0]);
}

/// A moderator, or a member whose own or one of whose roles' ping settings is
/// `ALLOW`, is not held back by the roles, the guild or the channel: before the
/// lists are looked at, the only reason a ping can be refused is the shared
/// cooldown.
pub proof fn law_ping_allowed_member_passes_restrictions(
    n: DbView,
    guild_id: u64,
    user_id: u64,
    roles: Seq<u64>,
    channel_id: u64,
    admin: bool,
    global: Map<u64, u64>,
    timestamp: u64,
)
    requires
        admin || setting_of(n.users, guild_id, user_id).ping_permission == PERMISSION::ALLOW || exists|k: int|
            0 <= k < roles.len() && setting_of(n.roles, guild_id, #[trigger] roles[k]).ping_permission == PERMISSION::ALLOW,
    ensures
        ({
            let h = crate::ping::ping_header(n, guild_id, user_id, roles, channel_id, admin, global, timestamp);
            h == Seq::<(Seq<char>, ListInvalidReasons)>::empty() || h == seq![for_all(ListInvalidReasons::OnGlobalCooldown)]
        }),
{
    law_ping_permission_is_largest(n, guild_id, user_id, roles, admin);
    let o = ping_override(n, guild_id, user_id, roles, admin);
    if !admin && setting_of(n.users, guild_id, user_id).ping_permission != PERMISSION::ALLOW {
        let k = choose|k: int| 0 <= k < roles.len()
            && setting_of(n.roles, guild_id, #[trigger] roles[k]).ping_permission == PERMISSION::ALLOW;
        assert(perm_rank(setting_of(n.roles, guild_id, roles[k]).ping_permission) <= perm_rank(o));
    }
    assert(o == PERMISSION::ALLOW);
    let h = crate::ping::ping_header(n, guild_id, user_id, roles, channel_id, admin, global, timestamp);
    assert(Seq::<(Seq<char>, ListInvalidReasons)>::empty().push(for_all(ListInvalidReasons::OnGlobalCooldown))
        =~= seq![for_all(ListInvalidReasons::OnGlobalCooldown)]);
}

/// The permission a proposal is checked against is the largest, in the order
/// `NEUTRAL < DENY < ALLOW`, of: the guild's rule (`ALLOW` for a moderator,
/// `NEUTRAL` where the guild lets everyone propose, `DENY` where it does not),
/// the channel's propose setting, the user's own propose setting, and each
/// role's propose setting.
pub proof fn law_propose_permission_is_largest(
    n: DbView,
    guild_id: u64,
    user_id: u64,
    roles: Seq<u64>,
    channel_id: u64,
    admin: bool,
)
    ensures
        ({
            let o = propose_override(n, guild_id, user_id, roles, channel_id, admin);
            let base = propose_base(admin, guild_of(n.guilds, guild_id).general_propose);
            let chan = channel_of(n.channels, channel_id).propose_permission;
            let own = setting_of(n.users, guild_id, user_id).propose_permission;
            &&& perm_rank(base) <= perm_rank(o)
            &&& perm_rank(chan) <= perm_rank(o)
            &&& perm_rank(own) <= perm_rank(o)
            &&& forall|k: int| 0 <= k < roles.len()
                ==> perm_rank(setting_of(n.roles, guild_id, #[trigger] roles[k]).propose_permission) <= perm_rank(o)
            &&& o == base || o == chan || o == own || exists|k: int| 0 <= k < roles.len()
                && o == setting_of(n.roles, guild_id, #[trigger] roles[k]).propose_permission
        }),
{
    let base = propose_base(admin, guild_of(n.guilds, guild_id).general_propose);
    let chan = channel_of(n.channels, channel_id).propose_permission;
    let own = setting_of(n.users, guild_id, user_id).propose_permission;
    let start = crate::structures::perm_max(crate::structures::perm_max(base, chan), own);
    lemma_roles_propose_largest(n, guild_id, roles, start);
}

/// A proposal by a member who is not a moderator, where the guild, the
/// channel, the user's own setting or one of the roles' settings says `DENY`
/// and none of the channel's, the user's and the roles' settings says `ALLOW`,
/// is denied: `propose` then answers `Denied` and opens no list.
pub proof fn law_propose_denied_member_is_refused(
    n: DbView,
    guild_id: u64,
    user_id: u64,
    roles: Seq<u64>,
    channel_id: u64,
    admin: bool,
)
    requires
        !admin,
        channel_of(n.channels, channel_id).propose_permission != PERMISSION::ALLOW,
        setting_of(n.users, guild_id, user_id).propose_permission != PERMISSION::ALLOW,
        forall|k: int| 0 <= k < roles.len() ==> setting_of(n.roles, guild_id, #[trigger] roles[k]).propose_permission
            != PERMISSION::ALLOW,
        !guild_of(n.guilds, guild_id).general_propose
            || channel_of(n.channels, channel_id).propose_permission == PERMISSION::DENY
            || setting_of(n.users, guild_id, user_id).propose_permission == PERMISSION::DENY
            || exists|k: int| 0 <= k < roles.len()
            && setting_of(n.roles, guild_id, #[trigger] roles[k]).propose_permission == PERMISSION::DENY,
    ensures
        propose_override(n, guild_id, user_id, roles, channel_id, admin) == PERMISSION::DENY,
{
    law_propose_permission_is_largest(n, guild_id, user_id, roles, channel_id, admin);
    let o = propose_override(n, guild_id, user_id, roles, channel_id, admin);
    let chan = channel_of(n.channels, channel_id).propose_permission;
    let own = setting_of(n.users, guild_id, user_id).propose_permission;
    if guild_of(n.guilds, guild_id).general_propose && chan != PERMISSION::DENY && own != PERMISSION::DENY {
        let k = choose|k: int| 0 <= k < roles.len()
            && setting_of(n.roles, guild_id, #[trigger] roles[k]).propose_permission == PERMISSION::DENY;
        assert(perm_rank(setting_of(n.roles, guild_id, roles[k]).propose_permission) <= perm_rank(o));
    }
    if o == PERMISSION::ALLOW && o != chan && o != own && o != propose_base(admin, guild_of(n.guilds, guild_id).general_propose) {
        let k = choose|k: int| 0 <= k < roles.len() && o == setting_of(n.roles, guild_id, #[trigger] roles[k]).propose_permission;
        assert(setting_of(n.roles, guild_id, roles[k]).propose_permission != PERMISSION::ALLOW);
    }
}

// ---------------------------------------------------------------------------
// What `/list` shows
// ---------------------------------------------------------------------------

/// Every entry a `/list` page can show is a visible list of the guild, with a
/// name that matches the filter; and every visible list of the guild with a
/// matching name is among them (once per matching name).
pub proof fn law_list_pages_show_visible_lists(v: DbView, guild_id: u64, filter: Seq<char>)
    ensures
        forall|k: int| 0 <= k < list_hits(v, guild_id, filter).len() ==> {
            let l = #[trigger] list_hits(v, guild_id, filter)[k];
            &&& l.visible
            &&& l.guild_id == guild_id
            &&& exists|a: AliasV| #[trigger] v.aliases.contains(a) && a.list_id == l.id && l == list_of(v.lists, a.list_id)
                && crate::text::like_filter(a.name, filter)
        },
        forall|q: int| 0 <= q < v.aliases.len() && crate::text::like_filter((#[trigger] v.aliases[q]).name, filter)
            && guild_list_of(v.lists, guild_id, v.aliases[q]) && list_of(v.lists, v.aliases[q].list_id).visible
            ==> list_hits(v, guild_id, filter).contains(list_of(v.lists, v.aliases[q].list_id)),
{
    let f = search_hit(v.lists, guild_id, filter, false);
    let h = list_hits(v, guild_id, filter);
    assert forall|k: int| 0 <= k < h.len() implies {
        let l = #[trigger] h[k];
        &&& l.visible
        &&& l.guild_id == guild_id
        &&& exists|a: AliasV| #[trigger] v.aliases.contains(a) && a.list_id == l.id && l == list_of(v.lists, a.list_id)
            && crate::text::like_filter(a.name, filter)
    } by {
        assert(h.contains(h[k]));
        v.aliases.lemma_filter_map_contains(f, h[k]);
        let a = choose|a: AliasV| #[trigger] v.aliases.contains(a) && f(a) == Some(h[k]);
        let j = choose|j: int| 0 <= j < v.lists.len() && #[trigger] v.lists[j].id == a.list_id;
        assert(v.lists[j].id == a.list_id);
    }
    assert forall|q: int| 0 <= q < v.aliases.len() && crate::text::like_filter((#[trigger] v.aliases[q]).name, filter)
        && guild_list_of(v.lists, guild_id, v.aliases[q]) && list_of(v.lists, v.aliases[q].list_id).visible
        implies h.contains(list_of(v.lists, v.aliases[q].list_id)) by {
        crate::lists::lemma_filter_map_has(v.aliases, f, q);
    }
}

} // verus!
