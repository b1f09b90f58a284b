use vstd::prelude::*;

use crate::database::{DbView, GuildField, has_guild_row, has_list_row, guild_of, keys_increasing, list_keys, sql_int, update_guilds};
use crate::database::MembershipRow;
use crate::db_lists::{ListField, has_membership, list_kept, list_of, member_of, membership_kept, update_lists};
use crate::ping::{CooldownsV, for_all, last_ping, ping_header, ping_ignores_cooldown, ListInvalidReasons, ScanV, scan, scan_step};
use crate::proposing::{accepted_list, check_run, checked_proposals, escape_name, CheckState};
use crate::lists::removed_list;
use crate::database::{ChannelRow, SettingRow};
use crate::db_settings::{
    ChannelField, SettingField, channel_of, ensure_channel, ensure_setting, first_channel, first_setting, has_setting,
    setting_of, setting_present, update_channels, update_settings,
};
use crate::db_lists::{
    alias_pos_ok, first_named, has_alias, insert_alias, lemma_insert_alias, lemma_list_named, list_named, list_room,
    named_in_guild, next_list_id,
};
use crate::lists::added_list;
use crate::db_lists::{counted_list, joinable_hit, membership_hit, ping_hit, search_hit, window};
use crate::database::ListV;
use crate::database::{AliasV, aliases_sorted};
use crate::text::str_le;
use crate::db_proposals::vote_count;
use crate::proposing::proposal_started;
use crate::ping::{chunk_run, chunk_step, mention};
use crate::purge::content_chunks;
use crate::structures::{
    LOGTRIGGER, PERMISSION, perm_max, perm_name, perm_of_rank, perm_of_str, perm_rank, perm_str_valid, trigger_kind,
    trigger_of,
};
use vstd::string::*;
use crate::db_responses::{
    condition_kept, condition_room, first_response, listed_condition, new_response, next_condition_id, next_response_id,
    response_for, response_kept, response_matches, response_room, trigger_ref,
};
use crate::database::{ConditionRow, ResponseV, condition_keys, response_keys};
use crate::structures::LOGCONDITION;
use crate::text::{all_digits, dec, digit_char, digits_value, is_digit, parse_u64_spec};

verus! {

// ---------------------------------------------------------------------------
// Permissions
// ---------------------------------------------------------------------------

/// Combining permissions does not depend on their order.
pub proof fn law_combine_commutative(a: PERMISSION, b: PERMISSION)
    ensures
        perm_max(a, b) == perm_max(b, a),
{
}

/// Combining several permissions does not depend on how they are grouped.
pub proof fn law_combine_associative(a: PERMISSION, b: PERMISSION, c: PERMISSION)
    ensures
        perm_max(perm_max(a, b), c) == perm_max(a, perm_max(b, c)),
{
}

/// Combining a permission with itself changes nothing.
pub proof fn law_combine_idempotent(a: PERMISSION)
    ensures
        perm_max(a, a) == a,
{
}

/// `NEUTRAL` leaves any permission as it is.
pub proof fn law_combine_neutral(a: PERMISSION)
    ensures
        perm_max(PERMISSION::NEUTRAL, a) == a,
        perm_max(a, PERMISSION::NEUTRAL) == a,
{
}

/// `ALLOW` wins over any permission.
pub proof fn law_combine_allow(a: PERMISSION)
    ensures
        perm_max(PERMISSION::ALLOW, a) == PERMISSION::ALLOW,
        perm_max(a, PERMISSION::ALLOW) == PERMISSION::ALLOW,
{
}

/// A permission read back from its stored number is the same permission,
/// and each number up to 2 stands for exactly one permission.
pub proof fn law_permission_number_roundtrip(p: PERMISSION, v: u64)
    ensures
        perm_of_rank(perm_rank(p)) == p,
        v <= 2 ==> perm_rank(perm_of_rank(v)) == v,
{
}

/// A permission is read back from the command string of its number (`0`,
/// `1`, `2`, the command's choices) and from its name.
pub proof fn law_permission_string_roundtrip(p: PERMISSION)
    ensures
        perm_str_valid(dec(perm_rank(p) as nat)),
        perm_of_str(dec(perm_rank(p) as nat)) == p,
        perm_str_valid(perm_name(p)),
        perm_of_str(perm_name(p)) == p,
{
    reveal_strlit("0");
    reveal_strlit("1");
    reveal_strlit("2");
    reveal_strlit("NEUTRAL");
    reveal_strlit("DENY");
    reveal_strlit("ALLOW");
    assert(dec(0) =~= "0"@);
    assert(dec(1) =~= "1"@);
    assert(dec(2) =~= "2"@);
    assert("0"@[0] != "1"@[0] && "0"@[0] != "2"@[0] && "1"@[0] != "2"@[0]);
    assert("NEUTRAL"@.len() == 7 && "DENY"@.len() == 4 && "ALLOW"@.len() == 5 && "0"@.len() == 1);
    assert("DENY"@[0] != "NEUTRAL"@[0] && "ALLOW"@[0] != "NEUTRAL"@[0] && "ALLOW"@[0] != "DENY"@[0]);
}

/// A trigger read back from its stored kind and role is the same trigger.
pub proof fn law_trigger_number_roundtrip(t: LOGTRIGGER)
    ensures
        trigger_of(trigger_kind(t), trigger_ref(t)) == t,
{
}

// ---------------------------------------------------------------------------
// Numbers as text
// ---------------------------------------------------------------------------

proof fn lemma_digit_value(d: int)
    requires
        0 <= d < 10,
    ensures
        (digit_char(d) as u32) - ('0' as u32) == d,
        is_digit(digit_char(d)),
        digit_char(d) != '+',
{
}

proof fn lemma_dec_digits(n: nat)
    ensures
        dec(n).len() > 0,
        all_digits(dec(n)),
        digits_value(dec(n)) == n,
        dec(n)[0] != '+',
    decreases n,
{
    if n >= 10 {
        lemma_dec_digits(n / 10);
        let s = dec(n / 10);
        let t = dec(n);
        lemma_digit_value((n % 10) as int);
        assert(t == s.push(digit_char((n % 10) as int)));
        assert(t.drop_last() =~= s);
        assert(digits_value(t) == digits_value(s) * 10 + ((digit_char((n % 10) as int) as u32) - ('0' as u32)) as nat);
        assert forall|i: int| 0 <= i < t.len() implies is_digit(#[trigger] t[i]) by {
            if i < s.len() {
                assert(t[i] == s[i]);
            }
        }
        assert(t[0] == s[0]);
    } else {
        lemma_digit_value(n as int);
        assert(dec(n) == seq![digit_char(n as int)]);
        assert(seq![digit_char(n as int)].drop_last() =~= Seq::<char>::empty());
        assert(digits_value(seq![digit_char(n as int)]) == n) by {
            reveal_with_fuel(digits_value, 2);
        }
    }
}

/// Reading back the decimal text of a number gives the number: a vote
/// button's id leads back to its list.
pub proof fn law_parse_dec_roundtrip(n: u64)
    ensures
        parse_u64_spec(dec(n as nat)) == Some(n),
{
    lemma_dec_digits(n as nat);
}

// ---------------------------------------------------------------------------
// Messages
// ---------------------------------------------------------------------------

/// The messages of a ping, read one after another, are the header followed
/// by every mention: splitting into messages loses and adds nothing.
pub proof fn law_ping_chunks_keep_text(head: Seq<char>, ids: Seq<u64>)
    ensures
        chunk_run(head, ids).0.flatten() + chunk_run(head, ids).1
            == head + ids.map_values(|id: u64| mention(id)).flatten(),
    decreases ids.len(),
{
    broadcast use Seq::lemma_flatten_push;

    if ids.len() == 0 {
        assert(ids.map_values(|id: u64| mention(id)) =~= Seq::<Seq<char>>::empty());
        assert(Seq::<Seq<char>>::empty().flatten() =~= Seq::<char>::empty());
        assert(head + Seq::<char>::empty() =~= head);
        assert(Seq::<char>::empty() + head =~= head);
    } else {
        let d = ids.drop_last();
        law_ping_chunks_keep_text(head, d);
        let r = chunk_run(head, d);
        let piece = mention(ids.last());
        assert(ids.map_values(|id: u64| mention(id)) =~= d.map_values(|id: u64| mention(id)).push(piece));
        let c = r.1 + piece;
        if crate::text::byte_len(c) > 1940 {
            assert(r.0.push(c).flatten() =~= r.0.flatten() + c);
            assert(r.0.flatten() + c + Seq::<char>::empty() =~= (r.0.flatten() + r.1) + piece);
        } else {
            assert(r.0.flatten() + c =~= (r.0.flatten() + r.1) + piece);
        }
        assert(head + (d.map_values(|id: u64| mention(id)).flatten() + piece)
            =~= (head + d.map_values(|id: u64| mention(id)).flatten()) + piece);
    }
}

/// The pieces a purged message is logged in, read one after another, are
/// its whole text.
pub proof fn law_purge_chunks_keep_text(c: Seq<char>)
    ensures
        content_chunks(c).flatten() == c,
    decreases c.len(),
{
    if c.len() <= 970 {
        assert(seq![c].flatten() == c) by {
            Seq::lemma_flatten_singleton(seq![c]);
        }
    } else {
        law_purge_chunks_keep_text(c.skip(970));
        vstd::seq_lib::lemma_flatten_concat(seq![c.take(970)], content_chunks(c.skip(970)));
        Seq::lemma_flatten_singleton(seq![c.take(970)]);
        assert(c.take(970) + c.skip(970) =~= c);
    }
}

// ---------------------------------------------------------------------------
// What a write is read back as
// ---------------------------------------------------------------------------

proof fn lemma_list_of_update(lists: Seq<crate::database::ListV>, id: u64, f: ListField)
    requires
        keys_increasing(list_keys(lists)),
        has_list_row(lists, id),
    ensures
        list_of(update_lists(lists, id, f), id) == crate::db_lists::list_with(list_of(lists, id), f),
{
    let k = choose|k: int| 0 <= k < lists.len() && #[trigger] lists[k].id == id;
    crate::db_lists::lemma_list_of(lists, id, k);
    let u = update_lists(lists, id, f);
    assert(list_keys(u) =~= list_keys(lists));
    assert(u[k].id == id);
    crate::db_lists::lemma_list_of(u, id, k);
}

/// A list's ping permission reads back as it was set.
pub proof fn law_pingable_read_back(v: DbView, list_id: u64, p: PERMISSION)
    requires
        v.wf(),
        has_list_row(v.lists, list_id),
    ensures
        list_of(update_lists(v.lists, list_id, ListField::Ping(p)), list_id).ping_permission == p,
{
    lemma_list_of_update(v.lists, list_id, ListField::Ping(p));
}

/// A list's join permission reads back as it was set.
pub proof fn law_joinable_read_back(v: DbView, list_id: u64, p: PERMISSION)
    requires
        v.wf(),
        has_list_row(v.lists, list_id),
    ensures
        list_of(update_lists(v.lists, list_id, ListField::Join(p)), list_id).join_permission == p,
{
    lemma_list_of_update(v.lists, list_id, ListField::Join(p));
}

/// A list's cooldown reads back as it was set.
pub proof fn law_cooldown_read_back(v: DbView, list_id: u64, c: i64)
    requires
        v.wf(),
        has_list_row(v.lists, list_id),
    ensures
        list_of(update_lists(v.lists, list_id, ListField::Cooldown(c)), list_id).cooldown == c,
{
    lemma_list_of_update(v.lists, list_id, ListField::Cooldown(c));
}

proof fn lemma_guild_of_update(guilds: Seq<crate::database::GuildRow>, id: u64, f: GuildField)
    requires
        has_guild_row(guilds, id),
    ensures
        guild_of(update_guilds(guilds, id, f), id) == crate::database::guild_with(guild_of(guilds, id), f),
{
    let q = choose|q: int| 0 <= q < guilds.len() && #[trigger] guilds[q].id == id;
    crate::database::lemma_first_guild_exists(guilds, id, q);
    let k = choose|k: int| crate::database::first_guild(guilds, id, k);
    crate::database::lemma_first_guild(guilds, id, k);
    let u = update_guilds(guilds, id, f);
    assert(crate::database::first_guild(u, id, k)) by {
        assert forall|j: int| 0 <= j < k implies (#[trigger] u[j]).id != id by {
            assert(guilds[j].id != id);
        }
    }
    crate::database::lemma_first_guild(u, id, k);
}

/// A guild setting reads back as it was set.
pub proof fn law_guild_setting_read_back(v: DbView, guild_id: u64, f: GuildField)
    requires
        has_guild_row(v.guilds, guild_id),
    ensures
        guild_of(update_guilds(v.guilds, guild_id, f), guild_id) == crate::database::guild_with(guild_of(v.guilds, guild_id), f),
{
    lemma_guild_of_update(v.guilds, guild_id, f);
}

/// A log channel that was set is the guild's log channel.
pub proof fn law_log_channel_read_back(v: DbView, guild_id: u64, channel_id: u64)
    requires
        has_guild_row(v.guilds, guild_id),
        channel_id != 0,
    ensures
        crate::purge::log_channel_of(v.with_guilds(update_guilds(v.guilds, guild_id, GuildField::LogChannel(channel_id))), guild_id)
            == Some(channel_id),
{
    lemma_guild_of_update(v.guilds, guild_id, GuildField::LogChannel(channel_id));
}


// ---------------------------------------------------------------------------
// Memberships
// ---------------------------------------------------------------------------

proof fn lemma_members_distinct(ms: Seq<MembershipRow>, list_id: u64)
    requires
        crate::database::memberships_unique(ms),
    ensures
        ms.filter_map(member_of(list_id)).no_duplicates(),
    decreases ms.len(),
{
    if ms.len() > 0 {
        let d = ms.drop_last();
        let x = ms.last();
        assert forall|i: int, j: int| 0 <= i < j < d.len() implies !(#[trigger] d[i].user_id == #[trigger] d[j].user_id
            && d[i].list_id == d[j].list_id) by {
            assert(d[i] == ms[i] && d[j] == ms[j]);
        }
        lemma_members_distinct(d, list_id);
        let f = member_of(list_id);
        let a = d.filter_map(f);
        if x.list_id == list_id {
            if a.contains(x.user_id) {
                d.lemma_filter_map_contains(f, x.user_id);
                let t = choose|t: MembershipRow| #[trigger] d.contains(t) && f(t) == Some(x.user_id);
                let k = choose|k: int| 0 <= k < d.len() && d[k] == t;
                assert(ms[k] == d[k]);
                assert(!(ms[k].user_id == ms[ms.len() - 1].user_id && ms[k].list_id == ms[ms.len() - 1].list_id));
            }
            let b = a + seq![x.user_id];
            assert forall|i: int, j: int| 0 <= i < j < b.len() implies b[i] != b[j] by {
                if j == b.len() - 1 {
                    assert(a.contains(a[i]));
                }
            }
        }
    }
}

/// A list's votes are its members, and no member is counted twice: the count
/// is the number of distinct users in the list.
pub proof fn law_votes_are_distinct_members(v: DbView, list_id: u64)
    requires
        v.wf(),
    ensures
        v.memberships.filter_map(member_of(list_id)).no_duplicates(),
        crate::db_proposals::vote_count(v, list_id) == v.memberships.filter_map(member_of(list_id)).to_set().len(),
{
    lemma_members_distinct(v.memberships, list_id);
    v.memberships.filter_map(member_of(list_id)).unique_seq_to_set();
}

/// After joining, the user is a member and is among the list's members.
pub proof fn law_join_makes_member(v: DbView, user_id: u64, list_id: u64)
    ensures
        has_membership(v.memberships.push(MembershipRow { user_id, list_id }), user_id, list_id),
        v.memberships.push(MembershipRow { user_id, list_id }).filter_map(member_of(list_id)).contains(user_id),
{
    let ms = v.memberships.push(MembershipRow { user_id, list_id });
    assert(ms[v.memberships.len() as int] == MembershipRow { user_id, list_id });
    crate::lists::lemma_filter_map_has(ms, member_of(list_id), v.memberships.len() as int);
}

/// After leaving, the user is no longer a member of the list.
pub proof fn law_leave_ends_membership(v: DbView, user_id: u64, list_id: u64)
    ensures
        !has_membership(v.memberships.filter(membership_kept(Some(user_id), list_id)), user_id, list_id),
{
    let f = v.memberships.filter(membership_kept(Some(user_id), list_id));
    if has_membership(f, user_id, list_id) {
        let j = choose|j: int| 0 <= j < f.len() && (#[trigger] f[j]).user_id == user_id && f[j].list_id == list_id;
        crate::db_lists::lemma_filter_keeps(v.memberships, membership_kept(Some(user_id), list_id), j);
    }
}

/// Leaving undoes joining: a user who was not a member, joins and leaves,
/// leaves the memberships as they were.
pub proof fn law_leave_undoes_join(v: DbView, user_id: u64, list_id: u64)
    requires
        !has_membership(v.memberships, user_id, list_id),
    ensures
        v.memberships.push(MembershipRow { user_id, list_id }).filter(membership_kept(Some(user_id), list_id))
            == v.memberships,
{
    let p = membership_kept(Some(user_id), list_id);
    lemma_filter_all_kept(v.memberships, p);
    assert(v.memberships.push(MembershipRow { user_id, list_id }).drop_last() =~= v.memberships);
    reveal(Seq::filter);
}

proof fn lemma_filter_all_kept<A>(s: Seq<A>, p: spec_fn(A) -> bool)
    requires
        forall|i: int| 0 <= i < s.len() ==> p(#[trigger] s[i]),
    ensures
        s.filter(p) == s,
    decreases s.len(),
{
    reveal(Seq::filter);
    if s.len() > 0 {
        lemma_filter_all_kept(s.drop_last(), p);
        assert(s.drop_last().push(s.last()) =~= s);
    }
}

// ---------------------------------------------------------------------------
// Lists and proposals
// ---------------------------------------------------------------------------

/// A removed list no longer exists.
pub proof fn law_removed_list_is_gone(v: DbView, list_id: u64)
    ensures
        !has_list_row(removed_list(v, list_id).lists, list_id),
{
    let l = v.lists.filter(list_kept(list_id));
    if has_list_row(l, list_id) {
        let j = choose|j: int| 0 <= j < l.len() && #[trigger] l[j].id == list_id;
        crate::db_lists::lemma_filter_keeps(v.lists, list_kept(list_id), j);
    }
}

/// An accepted proposal's list is open: visible, and joinable and pingable
/// as the guild allows.
pub proof fn law_accepted_list_is_open(v: DbView, list_id: u64)
    requires
        v.wf(),
        has_list_row(v.lists, list_id),
    ensures
        list_of(accepted_list(v, list_id).lists, list_id).visible,
        list_of(accepted_list(v, list_id).lists, list_id).join_permission == PERMISSION::NEUTRAL,
        list_of(accepted_list(v, list_id).lists, list_id).ping_permission == PERMISSION::NEUTRAL,
{
    let l1 = update_lists(v.lists, list_id, ListField::Ping(PERMISSION::NEUTRAL));
    let l2 = update_lists(l1, list_id, ListField::Join(PERMISSION::NEUTRAL));
    lemma_list_of_update(v.lists, list_id, ListField::Ping(PERMISSION::NEUTRAL));
    assert(list_keys(l1) =~= list_keys(v.lists));
    let k = choose|k: int| 0 <= k < v.lists.len() && #[trigger] v.lists[k].id == list_id;
    assert(l1[k].id == list_id);
    lemma_list_of_update(l1, list_id, ListField::Join(PERMISSION::NEUTRAL));
    assert(list_keys(l2) =~= list_keys(v.lists));
    assert(l2[k].id == list_id);
    lemma_list_of_update(l2, list_id, ListField::Visible(true));
}

/// The periodic proposal check sends at most ten notices.
pub proof fn law_check_sends_at_most_ten(v: DbView, now: u64)
    ensures
        checked_proposals(v, now).notices.len() <= 10,
{
    lemma_check_run_bounded(CheckState { db: v, notices: Seq::empty() }, now,
        v.proposals.map_values(crate::db_proposals::bot_proposal_entry(v)));
}

/// A notice is sent about a running proposal whose vote message is known.
pub open spec fn notice_of(
    n: (u64, u64, bool),
    entries: Seq<(u64, crate::structures::ProposalStatus)>,
    guilds: Seq<crate::database::GuildRow>,
    now: u64,
) -> bool {
    exists|k: int| 0 <= k < entries.len() && notice_answers(n, #[trigger] entries[k], guilds, now)
}

/// The notice answers the vote message of this running proposal, and says
/// "accepted" exactly when the proposal has its guild's threshold of votes;
/// a notice that does not say so is sent only once its time is up.
pub open spec fn notice_answers(
    n: (u64, u64, bool),
    e: (u64, crate::structures::ProposalStatus),
    guilds: Seq<crate::database::GuildRow>,
    now: u64,
) -> bool {
    &&& e.1 matches crate::structures::ProposalStatus::ACTIVE(_, votes, ts, ch, msg)
    &&& ch == n.0 && msg == n.1 && ch != 0 && msg != 0
    &&& n.2 <==> votes >= guild_of(guilds, e.0).propose_threshold as usize
    &&& !n.2 ==> ts + guild_of(guilds, e.0).propose_timeout <= now
}

/// Each notice the periodic check sends answers the vote message of one of
/// the running proposals it looked at (never a message of id 0 or in channel 0),
/// and is an acceptance exactly when that proposal reached its guild's vote
/// threshold; otherwise the proposal ran out of time.
pub proof fn law_check_notices_answer_proposals(v: DbView, now: u64)
    ensures
        forall|i: int| 0 <= i < checked_proposals(v, now).notices.len() ==> notice_of(
            #[trigger] checked_proposals(v, now).notices[i],
            v.proposals.map_values(crate::db_proposals::bot_proposal_entry(v)),
            v.guilds,
            now,
        ),
{
    lemma_check_run_notices(CheckState { db: v, notices: Seq::empty() }, now,
        v.proposals.map_values(crate::db_proposals::bot_proposal_entry(v)));
}

proof fn lemma_check_run_notices(start: CheckState, now: u64, entries: Seq<(u64, crate::structures::ProposalStatus)>)
    requires
        start.notices.len() == 0,
    ensures
        check_run(start, now, entries).db.guilds == start.db.guilds,
        forall|i: int| 0 <= i < check_run(start, now, entries).notices.len() ==> notice_of(
            #[trigger] check_run(start, now, entries).notices[i], entries, start.db.guilds, now),
    decreases entries.len(),
{
    if entries.len() > 0 {
        let d = entries.drop_last();
        lemma_check_run_notices(start, now, d);
        let q = check_run(start, now, d);
        let r = check_run(start, now, entries);
        let last = entries.len() - 1;
        assert(entries[last] == entries.last());
        assert forall|i: int| 0 <= i < r.notices.len() implies notice_of(#[trigger] r.notices[i], entries, start.db.guilds, now) by {
            if i < q.notices.len() {
                assert(r.notices[i] == q.notices[i]);
                assert(notice_of(q.notices[i], d, start.db.guilds, now));
                let k = choose|k: int| 0 <= k < d.len() && notice_answers(q.notices[i], #[trigger] d[k], start.db.guilds, now);
                assert(entries[k] == d[k]);
            } else {
                assert(notice_answers(r.notices[i], entries[last], start.db.guilds, now));
            }
        }
    }
}

/// The notice a running proposal is owed by a check at `now`: an acceptance
/// when it has its guild's threshold of votes, a time-out when its time is up,
/// none otherwise or when its vote message is unknown.
pub open spec fn notice_owed(
    e: (u64, crate::structures::ProposalStatus),
    guilds: Seq<crate::database::GuildRow>,
    now: u64,
) -> Option<(u64, u64, bool)> {
    match e.1 {
        crate::structures::ProposalStatus::ACTIVE(_, votes, ts, ch, msg) => {
            let g = guild_of(guilds, e.0);
            if ch == 0 || msg == 0 {
                None
            } else if votes >= g.propose_threshold as usize {
                Some((ch, msg, true))
            } else if ts + g.propose_timeout <= now {
                Some((ch, msg, false))
            } else {
                None
            }
        },
        _ => None,
    }
}

/// A check that sends fewer than ten notices sends every notice owed: each
/// running proposal with its guild's threshold of votes gets an acceptance, and
/// each one whose time is up a time-out (when its vote message is known).
pub proof fn law_check_sends_every_owed_notice(v: DbView, now: u64)
    ensures
        checked_proposals(v, now).notices.len() < 10 ==> forall|k: int|
            0 <= k < v.proposals.len() && #[trigger] notice_owed(
                crate::db_proposals::bot_proposal_entry(v)(v.proposals[k]), v.guilds, now) is Some
            ==> checked_proposals(v, now).notices.contains(
                notice_owed(crate::db_proposals::bot_proposal_entry(v)(v.proposals[k]), v.guilds, now)->Some_0),
{
    let entries = v.proposals.map_values(crate::db_proposals::bot_proposal_entry(v));
    let start = CheckState { db: v, notices: Seq::empty() };
    lemma_check_run_owed(start, now, entries);
    if checked_proposals(v, now).notices.len() < 10 {
        assert forall|k: int| 0 <= k < v.proposals.len() && #[trigger] notice_owed(
            crate::db_proposals::bot_proposal_entry(v)(v.proposals[k]), v.guilds, now) is Some
            implies checked_proposals(v, now).notices.contains(
            notice_owed(crate::db_proposals::bot_proposal_entry(v)(v.proposals[k]), v.guilds, now)->Some_0) by {
            assert(entries[k] == crate::db_proposals::bot_proposal_entry(v)(v.proposals[k]));
            assert(notice_owed(entries[k], v.guilds, now) is Some);
        }
    }
}

proof fn lemma_check_run_owed(start: CheckState, now: u64, entries: Seq<(u64, crate::structures::ProposalStatus)>)
    ensures
        check_run(start, now, entries).db.guilds == start.db.guilds,
        check_run(start, now, entries).notices.len() >= start.notices.len(),
        check_run(start, now, entries).notices.len() < 10 ==> forall|k: int| 0 <= k < entries.len()
            && #[trigger] notice_owed(entries[k], start.db.guilds, now) is Some
            ==> check_run(start, now, entries).notices.contains(notice_owed(entries[k], start.db.guilds, now)->Some_0),
    decreases entries.len(),
{
    if entries.len() > 0 {
        let d = entries.drop_last();
        lemma_check_run_owed(start, now, d);
        let q = check_run(start, now, d);
        let r = check_run(start, now, entries);
        let last = entries.len() - 1;
        assert(entries[last] == entries.last());
        if r.notices.len() < 10 {
            assert(q.notices.len() < 10);
            assert forall|k: int| 0 <= k < entries.len() && #[trigger] notice_owed(entries[k], start.db.guilds, now) is Some
                implies r.notices.contains(notice_owed(entries[k], start.db.guilds, now)->Some_0) by {
                let x = notice_owed(entries[k], start.db.guilds, now)->Some_0;
                if k < d.len() {
                    assert(entries[k] == d[k]);
                    assert(q.notices.contains(x));
                    let i = choose|i: int| 0 <= i < q.notices.len() && q.notices[i] == x;
                    assert(r.notices[i] == q.notices[i]);
                } else {
                    assert(r.notices[r.notices.len() - 1] == x);
                }
            }
        }
    }
}

proof fn lemma_check_run_bounded(start: CheckState, now: u64, entries: Seq<(u64, crate::structures::ProposalStatus)>)
    requires
        start.notices.len() <= 10,
    ensures
        check_run(start, now, entries).notices.len() <= 10,
    decreases entries.len(),
{
    if entries.len() > 0 {
        lemma_check_run_bounded(start, now, entries.drop_last());
    }
}

// ---------------------------------------------------------------------------
// Pings and proposals
// ---------------------------------------------------------------------------

/// Right after a ping went out at `timestamp`, the guild is on its shared
/// cooldown: a ping by a member who does not skip cooldowns, no later than
/// the cooldown allows, is refused for it.
pub proof fn law_ping_starts_cooldown(
    n: DbView,
    guild_id: u64,
    user_id: u64,
    roles: Seq<u64>,
    channel_id: u64,
    admin: bool,
    global: Map<u64, u64>,
    timestamp: u64,
    later: u64,
)
    requires
        !ping_ignores_cooldown(n, guild_id, user_id, roles, admin),
        later <= timestamp + guild_of(n.guilds, guild_id).general_cooldown,
    ensures
        ping_header(n, guild_id, user_id, roles, channel_id, admin, global.insert(guild_id, timestamp), later)
            .contains(for_all(ListInvalidReasons::OnGlobalCooldown)),
{
    let h = ping_header(n, guild_id, user_id, roles, channel_id, admin, global.insert(guild_id, timestamp), later);
    assert(last_ping(global.insert(guild_id, timestamp), guild_id) == timestamp);
    assert(h[h.len() - 1] == for_all(ListInvalidReasons::OnGlobalCooldown));
}

/// The names a ping's check has looked at, with what each gave.
pub open spec fn scan_accounts(n: DbView, guild_id: u64, admin: bool, start: ScanV, r: ScanV, names: Seq<Seq<char>>) -> bool {
    &&& r.invalid.len() + r.ids.len() == start.invalid.len() + start.ids.len() + names.len()
    &&& r.invalid.len() >= start.invalid.len()
    &&& r.ids.len() >= start.ids.len()
    &&& r.invalid.subrange(0, start.invalid.len() as int) == start.invalid
    &&& r.ids.subrange(0, start.ids.len() as int) == start.ids
    &&& forall|j: int| #![trigger r.ids[j]] start.ids.len() <= j < r.ids.len() ==> exists|k: int| 0 <= k < names.len()
        && #[trigger] list_named(n, names[k], guild_id) == Some(r.ids[j])
        && (admin || list_of(n.lists, r.ids[j]).ping_permission != PERMISSION::DENY)
    &&& forall|k: int| 0 <= k < names.len() && #[trigger] list_named(n, names[k], guild_id) is None
        ==> r.invalid.contains((names[k], ListInvalidReasons::DoesNotExist))
    &&& forall|k: int| 0 <= k < names.len() && !admin && #[trigger] list_named(n, names[k], guild_id) is Some
        && list_of(n.lists, list_named(n, names[k], guild_id)->0).ping_permission == PERMISSION::DENY
        ==> r.invalid.contains((names[k], ListInvalidReasons::ListRestrictPing))
}

/// Checking the names of a ping accounts for each name once, in order: each
/// either adds its list to those pinged or adds one refusal, and what was
/// there before stays. A name that names no list of the guild is refused as
/// unknown; one whose list may not be pinged is refused unless the caller is
/// an administrator; and only lists the ping names, that may be pinged (or any,
/// for an administrator), are pinged.
pub proof fn law_scan_accounts_for_each_name(
    n: DbView,
    guild_id: u64,
    admin: bool,
    timestamp: u64,
    start: ScanV,
    names: Seq<Seq<char>>,
)
    ensures
        scan_accounts(n, guild_id, admin, start, scan(n, guild_id, admin, timestamp, start, names), names),
    decreases names.len(),
{
    let r = scan(n, guild_id, admin, timestamp, start, names);
    if names.len() == 0 {
        assert(start.invalid.subrange(0, start.invalid.len() as int) =~= start.invalid);
        assert(start.ids.subrange(0, start.ids.len() as int) =~= start.ids);
    } else {
        let d = names.drop_last();
        let name = names.last();
        law_scan_accounts_for_each_name(n, guild_id, admin, timestamp, start, d);
        let q = scan(n, guild_id, admin, timestamp, start, d);
        assert(r == scan_step(n, guild_id, admin, timestamp, q, name));
        let last = names.len() - 1;
        assert(names[last] == name);
        assert forall|k: int| 0 <= k < d.len() implies #[trigger] names[k] == d[k] by {}
        // what was found before stays found
        assert forall|x: (Seq<char>, ListInvalidReasons)| q.invalid.contains(x) implies r.invalid.contains(x) by {
            let i = choose|i: int| 0 <= i < q.invalid.len() && q.invalid[i] == x;
            assert(r.invalid[i] == q.invalid[i]);
        }
        assert(r.invalid.subrange(0, start.invalid.len() as int) =~= start.invalid) by {
            assert forall|i: int| 0 <= i < start.invalid.len() implies r.invalid[i] == start.invalid[i] by {
                assert(q.invalid.subrange(0, start.invalid.len() as int)[i] == start.invalid[i]);
            }
        }
        assert(r.ids.subrange(0, start.ids.len() as int) =~= start.ids) by {
            assert forall|i: int| 0 <= i < start.ids.len() implies r.ids[i] == start.ids[i] by {
                assert(q.ids.subrange(0, start.ids.len() as int)[i] == start.ids[i]);
            }
        }
        assert forall|j: int| #![trigger r.ids[j]] start.ids.len() <= j < r.ids.len() implies exists|k: int| 0 <= k < names.len()
            && #[trigger] list_named(n, names[k], guild_id) == Some(r.ids[j])
            && (admin || list_of(n.lists, r.ids[j]).ping_permission != PERMISSION::DENY) by {
            if j < q.ids.len() {
                assert(r.ids[j] == q.ids[j]);
                let k = choose|k: int| 0 <= k < d.len() && #[trigger] list_named(n, d[k], guild_id) == Some(q.ids[j])
                    && (admin || list_of(n.lists, q.ids[j]).ping_permission != PERMISSION::DENY);
                assert(names[k] == d[k]);
            } else {
                assert(list_named(n, names[last], guild_id) == Some(r.ids[j]));
            }
        }
        assert forall|k: int| 0 <= k < names.len() && #[trigger] list_named(n, names[k], guild_id) is None
            implies r.invalid.contains((names[k], ListInvalidReasons::DoesNotExist)) by {
            if k < d.len() {
                assert(names[k] == d[k]);
                assert(q.invalid.contains((d[k], ListInvalidReasons::DoesNotExist)));
            } else {
                assert(r.invalid[r.invalid.len() - 1] == (name, ListInvalidReasons::DoesNotExist));
            }
        }
        assert forall|k: int| 0 <= k < names.len() && !admin && #[trigger] list_named(n, names[k], guild_id) is Some
            && list_of(n.lists, list_named(n, names[k], guild_id)->0).ping_permission == PERMISSION::DENY
            implies r.invalid.contains((names[k], ListInvalidReasons::ListRestrictPing)) by {
            if k < d.len() {
                assert(names[k] == d[k]);
                assert(q.invalid.contains((d[k], ListInvalidReasons::ListRestrictPing)));
            } else {
                assert(r.invalid[r.invalid.len() - 1] == (name, ListInvalidReasons::ListRestrictPing));
            }
        }
    }
}

/// An escaped list name holds no line break.
pub proof fn law_escaped_name_has_no_newline(s: Seq<char>)
    ensures
        !escape_name(s).contains('\n'),
    decreases s.len(),
{
    if s.len() > 0 {
        law_escaped_name_has_no_newline(s.drop_last());
        let e = escape_name(s);
        let a = escape_name(s.drop_last());
        let b = crate::proposing::escape_char(s.last());
        assert(e == a + b);
        if e.contains('\n') {
            let k = choose|k: int| 0 <= k < e.len() && e[k] == '\n';
            if k < a.len() {
                assert(a[k] == '\n');
            } else {
                assert(b[k - a.len()] == '\n');
            }
        }
    }
}


// ---------------------------------------------------------------------------
// Role, user and channel settings read back
// ---------------------------------------------------------------------------

pub(crate) proof fn lemma_first_setting_exists(rows: Seq<SettingRow>, guild_id: u64, key: u64, k: int)
    requires
        0 <= k < rows.len(),
        rows[k].subject_id == key,
        rows[k].guild_id == guild_id,
    ensures
        exists|i: int| first_setting(rows, guild_id, key, i),
    decreases k,
{
    if forall|j: int| 0 <= j < k ==> !((#[trigger] rows[j]).subject_id == key && rows[j].guild_id == guild_id) {
        assert(first_setting(rows, guild_id, key, k));
    } else {
        let j = choose|j: int| 0 <= j < k && !!((#[trigger] rows[j]).subject_id == key && rows[j].guild_id == guild_id);
        lemma_first_setting_exists(rows, guild_id, key, j);
    }
}

/// A role's or user's setting reads back as it was set (when the row it is
/// written to is the guild's).
pub proof fn law_setting_read_back(rows: Seq<SettingRow>, guild_id: u64, key: u64, f: SettingField)
    requires
        setting_present(rows, key) ==> has_setting(rows, guild_id, key),
    ensures
        setting_of(update_settings(ensure_setting(rows, guild_id, key), guild_id, key, f), guild_id, key)
            == crate::db_settings::setting_with(setting_of(ensure_setting(rows, guild_id, key), guild_id, key), f),
{
    let e = ensure_setting(rows, guild_id, key);
    let u = update_settings(e, guild_id, key, f);
    let q = if setting_present(rows, key) {
        choose|q: int| 0 <= q < rows.len() && (#[trigger] rows[q]).subject_id == key && rows[q].guild_id == guild_id
    } else {
        rows.len() as int
    };
    assert(e[q].subject_id == key && e[q].guild_id == guild_id);
    lemma_first_setting_exists(e, guild_id, key, q);
    let k = choose|k: int| first_setting(e, guild_id, key, k);
    crate::db_settings::lemma_first_setting(e, guild_id, key, k);
    assert(first_setting(u, guild_id, key, k)) by {
        assert forall|j: int| 0 <= j < k implies !((#[trigger] u[j]).subject_id == key && u[j].guild_id == guild_id) by {
            assert(!(e[j].subject_id == key && e[j].guild_id == guild_id));
        }
    }
    crate::db_settings::lemma_first_setting(u, guild_id, key, k);
}

pub(crate) proof fn lemma_first_channel_exists(rows: Seq<ChannelRow>, channel_id: u64, k: int)
    requires
        0 <= k < rows.len(),
        rows[k].channel_id == channel_id,
    ensures
        exists|i: int| first_channel(rows, channel_id, i),
    decreases k,
{
    if forall|j: int| 0 <= j < k ==> (#[trigger] rows[j]).channel_id != channel_id {
        assert(first_channel(rows, channel_id, k));
    } else {
        let j = choose|j: int| 0 <= j < k && !((#[trigger] rows[j]).channel_id != channel_id);
        lemma_first_channel_exists(rows, channel_id, j);
    }
}

/// A channel's setting reads back as it was set.
pub proof fn law_channel_read_back(rows: Seq<ChannelRow>, channel_id: u64, f: ChannelField)
    ensures
        channel_of(update_channels(ensure_channel(rows, channel_id), channel_id, f), channel_id)
            == crate::db_settings::channel_with(channel_of(ensure_channel(rows, channel_id), channel_id), f),
{
    let e = ensure_channel(rows, channel_id);
    let u = update_channels(e, channel_id, f);
    let q = if crate::db_settings::channel_present(rows, channel_id) {
        choose|q: int| 0 <= q < rows.len() && (#[trigger] rows[q]).channel_id == channel_id
    } else {
        rows.len() as int
    };
    assert(e[q].channel_id == channel_id);
    lemma_first_channel_exists(e, channel_id, q);
    let k = choose|k: int| first_channel(e, channel_id, k);
    crate::db_settings::lemma_first_channel(e, channel_id, k);
    assert(first_channel(u, channel_id, k)) by {
        assert forall|j: int| 0 <= j < k implies (#[trigger] u[j]).channel_id != channel_id by {
            assert(e[j].channel_id != channel_id);
        }
    }
    crate::db_settings::lemma_first_channel(u, channel_id, k);
}

/// A new proposal starts with one vote: its proposer's.
pub proof fn law_proposal_starts_with_one_vote(
    n: DbView,
    guild_id: u64,
    name: Seq<char>,
    timestamp: i64,
    channel_id: u64,
    user_id: u64,
)
    requires
        n.wf(),
    ensures
        ({
            let id = next_list_id(n.lists);
            let s = proposal_started(n, guild_id, name, timestamp, channel_id);
            vote_count(s.with_memberships(s.memberships.push(MembershipRow { user_id, list_id: id })), id) == 1
        }),
{
    let id = next_list_id(n.lists);
    let ms = n.memberships;
    assert(ms.filter_map(member_of(id)) =~= Seq::<u64>::empty()) by {
        lemma_no_members(n, id);
    }
    assert(ms.push(MembershipRow { user_id, list_id: id }).drop_last() =~= ms);
    assert(ms.push(MembershipRow { user_id, list_id: id }).filter_map(member_of(id))
        =~= ms.filter_map(member_of(id)) + seq![user_id]);
}

/// A fresh list key has no members.
proof fn lemma_no_members(n: DbView, id: u64)
    requires
        n.wf(),
        id == next_list_id(n.lists),
    ensures
        n.memberships.filter_map(member_of(id)).len() == 0,
{
    let f = n.memberships.filter_map(member_of(id));
    if f.len() > 0 {
        assert(f.contains(f[0]));
        n.memberships.lemma_filter_map_contains(member_of(id), f[0]);
        let m = choose|m: MembershipRow| #[trigger] n.memberships.contains(m) && member_of(id)(m) == Some(f[0]);
        let j = choose|j: int| 0 <= j < n.memberships.len() && n.memberships[j] == m;
        assert(has_list_row(n.lists, n.memberships[j].list_id));
        let k = choose|k: int| 0 <= k < n.lists.len() && #[trigger] n.lists[k].id == id;
        assert(list_keys(n.lists)[k] <= list_keys(n.lists)[n.lists.len() - 1]);
    }
}


// ---------------------------------------------------------------------------
// Names
// ---------------------------------------------------------------------------

/// Sorted names always have a place for another name.
proof fn lemma_alias_pos_exists(aliases: Seq<AliasV>, name: Seq<char>)
    requires
        aliases_sorted(aliases),
    ensures
        exists|k: int| alias_pos_ok(aliases, name, k),
    decreases aliases.len(),
{
    if aliases.len() == 0 {
        assert(alias_pos_ok(aliases, name, 0));
    } else {
        let d = aliases.drop_last();
        assert(aliases_sorted(d)) by {
            assert forall|i: int, j: int| 0 <= i < j < d.len() implies str_le(d[i].name, d[j].name) by {
                assert(d[i] == aliases[i] && d[j] == aliases[j]);
            }
        }
        lemma_alias_pos_exists(d, name);
        let k = choose|k: int| alias_pos_ok(d, name, k);
        assert forall|j: int| 0 <= j < k implies str_le((#[trigger] aliases[j]).name, name) by {
            assert(d[j] == aliases[j]);
        }
        if k < d.len() {
            assert(d[k] == aliases[k]);
            assert(alias_pos_ok(aliases, name, k));
        } else if str_le(aliases.last().name, name) {
            assert(alias_pos_ok(aliases, name, aliases.len() as int));
        } else {
            assert(alias_pos_ok(aliases, name, d.len() as int));
        }
    }
}

/// The names after adding `a` are the old ones and `a`: a name of another
/// list is an old name.
proof fn lemma_inserted_names(aliases: Seq<AliasV>, a: AliasV, list_id: u64, name: Seq<char>)
    requires
        aliases_sorted(aliases),
    ensures
        has_alias(insert_alias(aliases, a), a.list_id, a.name),
        list_id != a.list_id ==> (has_alias(insert_alias(aliases, a), list_id, name) == has_alias(aliases, list_id, name)),
{
    lemma_alias_pos_exists(aliases, a.name);
    let k = choose|k: int| alias_pos_ok(aliases, a.name, k);
    lemma_insert_alias(aliases, a, k);
    let r = aliases.insert(k, a);
    assert(r[k] == a);
    if list_id != a.list_id {
        if has_alias(r, list_id, name) {
            let q = choose|q: int| 0 <= q < r.len() && (#[trigger] r[q]).list_id == list_id && r[q].name == name;
            if q < k {
                assert(aliases[q] == r[q]);
            } else {
                assert(aliases[q - 1] == r[q]);
            }
        }
        if has_alias(aliases, list_id, name) {
            let q = choose|q: int| 0 <= q < aliases.len() && (#[trigger] aliases[q]).list_id == list_id && aliases[q].name == name;
            if q < k {
                assert(r[q] == aliases[q]);
            } else {
                assert(r[q + 1] == aliases[q]);
            }
        }
    }
}

/// A list created under a name that no list of the guild carries is found
/// by that name.
pub proof fn law_created_list_is_found(v: DbView, guild_id: u64, name: Seq<char>)
    requires
        v.wf(),
        list_room(v.lists),
        list_named(v, name, guild_id) is None,
    ensures
        list_named(added_list(v, guild_id, name), name, guild_id) == Some(next_list_id(v.lists)),
{
    let id = next_list_id(v.lists);
    let n = added_list(v, guild_id, name);
    let last = v.lists.len() as int;
    lemma_inserted_names(v.aliases, AliasV { list_id: id, name }, id, name);
    assert(n.lists[last].id == id);
    assert(named_in_guild(n, name, guild_id, last));
    assert forall|j: int| 0 <= j < last implies !named_in_guild(n, name, guild_id, j) by {
        assert(list_keys(v.lists)[j] <= list_keys(v.lists)[last - 1]);
        assert(n.lists[j] == v.lists[j]);
        lemma_inserted_names(v.aliases, AliasV { list_id: id, name }, v.lists[j].id, name);
        if named_in_guild(n, name, guild_id, j) {
            assert(named_in_guild(v, name, guild_id, j));
        }
    }
    assert(first_named(n, name, guild_id, last));
    lemma_list_named(n, name, guild_id, last);
}

/// A list given a name that no list of the guild carries is found by that
/// name.
pub proof fn law_alias_finds_list(v: DbView, guild_id: u64, list_id: u64, alias: Seq<char>)
    requires
        v.wf(),
        has_list_row(v.lists, list_id),
        list_of(v.lists, list_id).guild_id == guild_id,
        list_named(v, alias, guild_id) is None,
    ensures
        list_named(v.with_aliases(insert_alias(v.aliases, AliasV { list_id, name: alias })), alias, guild_id)
            == Some(list_id),
{
    let n = v.with_aliases(insert_alias(v.aliases, AliasV { list_id, name: alias }));
    let i = choose|i: int| 0 <= i < v.lists.len() && #[trigger] v.lists[i].id == list_id;
    crate::db_lists::lemma_list_of(v.lists, list_id, i);
    lemma_inserted_names(v.aliases, AliasV { list_id, name: alias }, list_id, alias);
    assert(named_in_guild(n, alias, guild_id, i));
    assert forall|j: int| 0 <= j < i implies !named_in_guild(n, alias, guild_id, j) by {
        assert(list_keys(v.lists)[j] < list_keys(v.lists)[i]);
        lemma_inserted_names(v.aliases, AliasV { list_id, name: alias }, v.lists[j].id, alias);
        if named_in_guild(n, alias, guild_id, j) {
            assert(named_in_guild(v, alias, guild_id, j));
        }
    }
    assert(first_named(n, alias, guild_id, i));
    lemma_list_named(n, alias, guild_id, i);
}


// ---------------------------------------------------------------------------
// Automatic responses
// ---------------------------------------------------------------------------

/// A removed automatic response no longer answers its trigger.
pub proof fn law_removed_response_is_gone(v: DbView, guild_id: u64, t: LOGTRIGGER)
    ensures
        response_for(v.responses.filter(response_kept(guild_id, t)), guild_id, t) is None,
{
    let f = v.responses.filter(response_kept(guild_id, t));
    assert forall|i: int| 0 <= i < f.len() implies !response_matches(#[trigger] f[i], guild_id, t) by {
        v.responses.lemma_filter_pred(response_kept(guild_id, t), i);
    }
}


// ---------------------------------------------------------------------------
// Settings written one after another
// ---------------------------------------------------------------------------

/// The rows after the setters of `fs` ran, in order, for one role or user:
/// each of `set_role_canpropose`, `set_role_canping` and
/// `set_role_ignore_cooldown` (and the user setters) that succeeds leaves
/// `update_settings(ensure_setting(rows, guild_id, key), guild_id, key, f)`.
pub open spec fn settings_after(rows: Seq<SettingRow>, guild_id: u64, key: u64, fs: Seq<SettingField>) -> Seq<SettingRow>
    decreases fs.len(),
{
    if fs.len() == 0 {
        rows
    } else {
        let r = settings_after(rows, guild_id, key, fs.drop_last());
        update_settings(ensure_setting(r, guild_id, key), guild_id, key, fs.last())
    }
}

/// A row with the columns of `fs` written into it, in order.
pub open spec fn setting_fields_applied(r: SettingRow, fs: Seq<SettingField>) -> SettingRow
    decreases fs.len(),
{
    if fs.len() == 0 {
        r
    } else {
        crate::db_settings::setting_with(setting_fields_applied(r, fs.drop_last()), fs.last())
    }
}

/// Making sure a row exists changes nothing once one is there.
proof fn lemma_update_keeps_setting(rows: Seq<SettingRow>, guild_id: u64, key: u64, f: SettingField)
    requires
        setting_present(rows, key) ==> has_setting(rows, guild_id, key),
    ensures
        has_setting(update_settings(ensure_setting(rows, guild_id, key), guild_id, key, f), guild_id, key),
{
    let e = ensure_setting(rows, guild_id, key);
    let q = if setting_present(rows, key) {
        choose|q: int| 0 <= q < rows.len() && (#[trigger] rows[q]).subject_id == key && rows[q].guild_id == guild_id
    } else {
        rows.len() as int
    };
    assert(e[q].subject_id == key && e[q].guild_id == guild_id);
    let u = update_settings(e, guild_id, key, f);
    assert(u[q].subject_id == key && u[q].guild_id == guild_id);
}

/// A role's or user's settings read back as the setters left them: each
/// setter writes its own column, the last write of a column wins, and the
/// columns never written keep the row's values (for a role or user never
/// configured, `NEUTRAL`, `NEUTRAL` and `false`). `get_role_permissions`
/// (`get_user_permissions`) returns the columns of
/// `setting_of(ensure_setting(rows, guild_id, key), guild_id, key)`, so after
/// any sequence of setters it returns `setting_fields_applied` of the row.
pub proof fn law_settings_read_back(rows: Seq<SettingRow>, guild_id: u64, key: u64, fs: Seq<SettingField>)
    requires
        setting_present(rows, key) ==> has_setting(rows, guild_id, key),
    ensures
        setting_of(ensure_setting(settings_after(rows, guild_id, key, fs), guild_id, key), guild_id, key)
            == setting_fields_applied(setting_of(ensure_setting(rows, guild_id, key), guild_id, key), fs),
        !setting_present(rows, key) ==> setting_of(ensure_setting(rows, guild_id, key), guild_id, key)
            == crate::db_settings::default_setting(guild_id, key),
        fs.len() > 0 ==> has_setting(settings_after(rows, guild_id, key, fs), guild_id, key),
    decreases fs.len(),
{
    if !setting_present(rows, key) {
        let e = ensure_setting(rows, guild_id, key);
        assert(first_setting(e, guild_id, key, rows.len() as int)) by {
            assert forall|j: int| 0 <= j < rows.len() implies !((#[trigger] e[j]).subject_id == key && e[j].guild_id == guild_id) by {
                assert(e[j] == rows[j]);
            }
        }
        crate::db_settings::lemma_first_setting(e, guild_id, key, rows.len() as int);
    }
    if fs.len() > 0 {
        let d = fs.drop_last();
        law_settings_read_back(rows, guild_id, key, d);
        let r = settings_after(rows, guild_id, key, d);
        if d.len() > 0 {
            let q = choose|q: int| 0 <= q < r.len() && (#[trigger] r[q]).subject_id == key && r[q].guild_id == guild_id;
            assert(setting_present(r, key));
            assert(ensure_setting(r, guild_id, key) == r);
        }
        assert(setting_present(r, key) ==> has_setting(r, guild_id, key));
        law_setting_read_back(r, guild_id, key, fs.last());
        let u = update_settings(ensure_setting(r, guild_id, key), guild_id, key, fs.last());
        lemma_update_keeps_setting(r, guild_id, key, fs.last());
        let q = choose|q: int| 0 <= q < u.len() && (#[trigger] u[q]).subject_id == key && u[q].guild_id == guild_id;
        assert(setting_present(u, key));
        assert(ensure_setting(u, guild_id, key) == u);
    }
}

/// The channel rows after the setters of `fs` ran, in order, for one channel:
/// each of `set_channel_public_visible`, `set_channel_mentioning` and
/// `set_channel_proposing` leaves `update_channels(ensure_channel(rows, c), c, f)`.
pub open spec fn channels_after(rows: Seq<ChannelRow>, channel_id: u64, fs: Seq<ChannelField>) -> Seq<ChannelRow>
    decreases fs.len(),
{
    if fs.len() == 0 {
        rows
    } else {
        let r = channels_after(rows, channel_id, fs.drop_last());
        update_channels(ensure_channel(r, channel_id), channel_id, fs.last())
    }
}

pub open spec fn channel_fields_applied(r: ChannelRow, fs: Seq<ChannelField>) -> ChannelRow
    decreases fs.len(),
{
    if fs.len() == 0 {
        r
    } else {
        crate::db_settings::channel_with(channel_fields_applied(r, fs.drop_last()), fs.last())
    }
}

/// A channel's settings read back as the setters left them: each setter
/// writes its own column, the last write of a column wins, and the columns
/// never written keep the row's values (for a channel never configured,
/// `false`, `NEUTRAL` and `NEUTRAL`). `get_channel_permissions` returns the
/// columns of `channel_of(ensure_channel(rows, c), c)` whatever the guild.
pub proof fn law_channel_settings_read_back(rows: Seq<ChannelRow>, channel_id: u64, fs: Seq<ChannelField>)
    ensures
        channel_of(ensure_channel(channels_after(rows, channel_id, fs), channel_id), channel_id)
            == channel_fields_applied(channel_of(ensure_channel(rows, channel_id), channel_id), fs),
        !crate::db_settings::channel_present(rows, channel_id) ==> channel_of(ensure_channel(rows, channel_id), channel_id)
            == crate::db_settings::default_channel(channel_id),
    decreases fs.len(),
{
    if !crate::db_settings::channel_present(rows, channel_id) {
        let e = ensure_channel(rows, channel_id);
        assert(first_channel(e, channel_id, rows.len() as int)) by {
            assert forall|j: int| 0 <= j < rows.len() implies (#[trigger] e[j]).channel_id != channel_id by {
                assert(e[j] == rows[j]);
            }
        }
        crate::db_settings::lemma_first_channel(e, channel_id, rows.len() as int);
    }
    if fs.len() > 0 {
        let d = fs.drop_last();
        law_channel_settings_read_back(rows, channel_id, d);
        let r = channels_after(rows, channel_id, d);
        if d.len() > 0 {
            let r0 = channels_after(rows, channel_id, d.drop_last());
            let e0 = ensure_channel(r0, channel_id);
            let q = if crate::db_settings::channel_present(r0, channel_id) {
                choose|q: int| 0 <= q < r0.len() && (#[trigger] r0[q]).channel_id == channel_id
            } else {
                r0.len() as int
            };
            assert(e0[q].channel_id == channel_id);
            assert(r[q].channel_id == channel_id);
            assert(ensure_channel(r, channel_id) == r);
        }
        law_channel_read_back(r, channel_id, fs.last());
        let e = ensure_channel(r, channel_id);
        let u = update_channels(e, channel_id, fs.last());
        let q = if crate::db_settings::channel_present(r, channel_id) {
            choose|q: int| 0 <= q < r.len() && (#[trigger] r[q]).channel_id == channel_id
        } else {
            r.len() as int
        };
        assert(e[q].channel_id == channel_id);
        assert(u[q].channel_id == channel_id);
        assert(ensure_channel(u, channel_id) == u);
    }
}


/// A response that a trigger selects, found by its first matching row.
proof fn lemma_some_response(rows: Seq<ResponseV>, guild_id: u64, t: LOGTRIGGER, k: int)
    requires
        0 <= k < rows.len(),
        response_matches(rows[k], guild_id, t),
    ensures
        exists|i: int| first_response(rows, guild_id, t, i),
    decreases k,
{
    if forall|j: int| 0 <= j < k ==> !response_matches(#[trigger] rows[j], guild_id, t) {
        assert(first_response(rows, guild_id, t, k));
    } else {
        let j = choose|j: int| 0 <= j < k && response_matches(#[trigger] rows[j], guild_id, t);
        lemma_some_response(rows, guild_id, t, j);
    }
}

/// An added automatic response is found by its trigger under a key no
/// earlier response has, and every other trigger (another guild, kind or
/// role) finds what it found before. Stated over the store `add_response`
/// leaves and the `response_for` that `has_response` returns.
pub proof fn law_added_response_is_found(
    v: DbView,
    guild_id: u64,
    t: LOGTRIGGER,
    channel: u64,
    message: Seq<char>,
    guild2: u64,
    t2: LOGTRIGGER,
)
    requires
        v.wf(),
        response_room(v.responses),
        response_for(v.responses, guild_id, t) is None,
    ensures
        ({
            let id = next_response_id(v.responses);
            let row = new_response(id, guild_id, t, channel, message);
            let rs = v.responses.push(row);
            &&& response_for(rs, guild_id, t) == Some(id)
            &&& forall|j: int| 0 <= j < v.responses.len() ==> #[trigger] v.responses[j].id < id
            &&& !response_matches(row, guild2, t2) ==> response_for(rs, guild2, t2) == response_for(v.responses, guild2, t2)
        }),
{
    let id = next_response_id(v.responses);
    let row = new_response(id, guild_id, t, channel, message);
    let rs = v.responses.push(row);
    let n = v.responses.len() as int;
    assert forall|j: int| 0 <= j < n implies #[trigger] v.responses[j].id < id by {
        assert(response_keys(v.responses)[j] <= response_keys(v.responses)[n - 1]);
    }
    assert(response_matches(rs[n], guild_id, t));
    assert(first_response(rs, guild_id, t, n)) by {
        assert forall|j: int| 0 <= j < n implies !response_matches(#[trigger] rs[j], guild_id, t) by {
            assert(rs[j] == v.responses[j]);
        }
    }
    crate::db_responses::lemma_response_for(rs, guild_id, t, n);
    if !response_matches(row, guild2, t2) {
        if exists|i: int| 0 <= i < n && response_matches(#[trigger] v.responses[i], guild2, t2) {
            let k = choose|i: int| 0 <= i < n && response_matches(#[trigger] v.responses[i], guild2, t2);
            lemma_some_response(v.responses, guild2, t2, k);
            let i = choose|i: int| first_response(v.responses, guild2, t2, i);
            crate::db_responses::lemma_response_for(v.responses, guild2, t2, i);
            assert(first_response(rs, guild2, t2, i)) by {
                assert(rs[i] == v.responses[i]);
                assert forall|j: int| 0 <= j < i implies !response_matches(#[trigger] rs[j], guild2, t2) by {
                    assert(rs[j] == v.responses[j]);
                }
            }
            crate::db_responses::lemma_response_for(rs, guild2, t2, i);
        } else {
            assert forall|i: int| 0 <= i < rs.len() implies !response_matches(#[trigger] rs[i], guild2, t2) by {
                if i < n {
                    assert(rs[i] == v.responses[i]);
                }
            }
        }
    }
}

/// A condition added to a response is listed last among its conditions
/// under a fresh key, and removing that key gives the conditions back.
/// Stated over the stores `add_response_condition` and
/// `remove_response_condition` leave and the conditions
/// `get_response_conditions` lists.
pub proof fn law_condition_round_trip(v: DbView, log_id: u64, role: u64, invert: bool)
    requires
        v.wf(),
        condition_room(v.conditions),
    ensures
        ({
            let k = next_condition_id(v.conditions);
            let added = v.conditions.push(ConditionRow { id: k, rolelog_id: log_id, cond_type: 0, acomp_id: role, invert });
            &&& forall|j: int| 0 <= j < v.conditions.len() ==> #[trigger] v.conditions[j].id < k
            &&& added.filter_map(listed_condition(log_id))
                == v.conditions.filter_map(listed_condition(log_id)).push((LOGCONDITION::HasRole(role), invert, k))
            &&& added.filter(condition_kept(k)) == v.conditions
        }),
{
    let k = next_condition_id(v.conditions);
    let c = ConditionRow { id: k, rolelog_id: log_id, cond_type: 0, acomp_id: role, invert };
    let added = v.conditions.push(c);
    let n = v.conditions.len() as int;
    assert forall|j: int| 0 <= j < n implies #[trigger] v.conditions[j].id < k by {
        assert(condition_keys(v.conditions)[j] <= condition_keys(v.conditions)[n - 1]);
    }
    assert(added.drop_last() =~= v.conditions);
    assert(added.filter_map(listed_condition(log_id))
        =~= v.conditions.filter_map(listed_condition(log_id)).push((LOGCONDITION::HasRole(role), invert, k)));
    v.conditions.lemma_filter_push(c, condition_kept(k));
    lemma_filter_keeps_all(v.conditions, condition_kept(k));
}

/// Filtering keeps a sequence whose elements all pass.
proof fn lemma_filter_keeps_all<T>(s: Seq<T>, p: spec_fn(T) -> bool)
    requires
        forall|j: int| 0 <= j < s.len() ==> p(#[trigger] s[j]),
    ensures
        s.filter(p) == s,
    decreases s.len(),
{
    if s.len() > 0 {
        let d = s.drop_last();
        lemma_filter_keeps_all(d, p);
        d.lemma_filter_push(s.last(), p);
        assert(d.push(s.last()) =~= s);
    } else {
        assert(s.filter(p) =~= s);
    }
}


// ---------------------------------------------------------------------------
// Searches
// ---------------------------------------------------------------------------

/// Counting the lists a search matches gives the number of distinct lists
/// the search finds (the search finds a list once per matching name):
/// `count_lists_by_search` returns the first length, and `get_lists_by_search`
/// returns the lists of the second sequence, so the count is the number of
/// distinct list ids the search returns.
pub proof fn law_count_is_distinct_hits(v: DbView, guild_id: u64, filter: Seq<char>, show_hidden: bool)
    requires
        v.wf(),
    ensures
        v.lists.filter(counted_list(v.aliases, guild_id, filter, show_hidden)).len()
            == v.aliases.filter_map(search_hit(v.lists, guild_id, filter, show_hidden)).to_set().len(),
        v.lists.filter(counted_list(v.aliases, guild_id, filter, show_hidden)).len()
            == list_keys(v.aliases.filter_map(search_hit(v.lists, guild_id, filter, show_hidden))).to_set().len(),
{
    broadcast use vstd::seq_lib::seq_to_set_is_finite;

    let p = counted_list(v.aliases, guild_id, filter, show_hidden);
    let f = search_hit(v.lists, guild_id, filter, show_hidden);
    let c = v.lists.filter(p);
    let h = v.aliases.filter_map(f);
    crate::db_lists::lemma_filter_lists_increasing(v.lists, p);
    assert(c.no_duplicates()) by {
        assert forall|i: int, j: int| 0 <= i < c.len() && 0 <= j < c.len() && i != j implies c[i] != c[j] by {
            if i < j {
                assert(list_keys(c)[i] < list_keys(c)[j]);
            } else {
                assert(list_keys(c)[j] < list_keys(c)[i]);
            }
        }
    }
    c.unique_seq_to_set();
    assert forall|x: ListV| c.to_set().contains(x) implies h.to_set().contains(x) by {
        let k = choose|k: int| 0 <= k < c.len() && c[k] == x;
        v.lists.lemma_filter_pred(p, k);
        crate::db_lists::lemma_filter_keeps(v.lists, p, k);
        let j = choose|j: int| 0 <= j < v.lists.len() && v.lists[j] == c[k];
        let q = choose|q: int| 0 <= q < v.aliases.len() && (#[trigger] v.aliases[q]).list_id == x.id
            && crate::text::like_filter(v.aliases[q].name, filter);
        crate::db_lists::lemma_list_of(v.lists, x.id, j);
        assert(has_list_row(v.lists, x.id));
        crate::lists::lemma_filter_map_has(v.aliases, f, q);
    }
    assert forall|x: ListV| h.to_set().contains(x) implies c.to_set().contains(x) by {
        assert(h.contains(x));
        v.aliases.lemma_filter_map_contains(f, x);
        let a = choose|a: AliasV| #[trigger] v.aliases.contains(a) && f(a) == Some(x);
        let q = choose|q: int| 0 <= q < v.aliases.len() && v.aliases[q] == a;
        let j = choose|j: int| 0 <= j < v.lists.len() && #[trigger] v.lists[j].id == a.list_id;
        crate::db_lists::lemma_list_of(v.lists, a.list_id, j);
        assert(v.lists[j] == x);
        assert(v.aliases[q].list_id == x.id);
        assert(p(v.lists[j]));
        v.lists.lemma_filter_contains(p, j);
    }
    assert(c.to_set() =~= h.to_set());
    let ck = list_keys(c);
    let hk = list_keys(h);
    assert(ck.no_duplicates()) by {
        assert forall|i: int, j: int| 0 <= i < ck.len() && 0 <= j < ck.len() && i != j implies ck[i] != ck[j] by {
            if i < j {
                assert(ck[i] < ck[j]);
            } else {
                assert(ck[j] < ck[i]);
            }
        }
    }
    ck.unique_seq_to_set();
    assert forall|x: u64| ck.to_set().contains(x) implies hk.to_set().contains(x) by {
        let k = choose|k: int| 0 <= k < ck.len() && ck[k] == x;
        assert(c.to_set().contains(c[k]));
        assert(h.to_set().contains(c[k]));
        let m = choose|m: int| 0 <= m < h.len() && h[m] == c[k];
        assert(hk[m] == x);
    }
    assert forall|x: u64| hk.to_set().contains(x) implies ck.to_set().contains(x) by {
        let m = choose|m: int| 0 <= m < hk.len() && hk[m] == x;
        assert(h.to_set().contains(h[m]));
        assert(c.to_set().contains(h[m]));
        let k = choose|k: int| 0 <= k < c.len() && c[k] == h[m];
        assert(ck[k] == x);
    }
    assert(ck.to_set() =~= hk.to_set());
}


proof fn lemma_split_names(v: DbView, guild_id: u64, user_id: u64, filter: Seq<char>, s: Seq<AliasV>)
    ensures
        s.filter_map(joinable_hit(v, guild_id, user_id, filter, true)).to_multiset().add(
            s.filter_map(membership_hit(v, guild_id, user_id, filter, true)).to_multiset(),
        ) =~= s.filter_map(ping_hit(v.lists, guild_id, filter, true)).to_multiset(),
    decreases s.len(),
{
    broadcast use vstd::seq_lib::to_multiset_build, vstd::multiset::group_multiset_axioms;

    let fj = joinable_hit(v, guild_id, user_id, filter, true);
    let fm = membership_hit(v, guild_id, user_id, filter, true);
    let fa = ping_hit(v.lists, guild_id, filter, true);
    if s.len() == 0 {
        assert(s.filter_map(fj) =~= Seq::<Seq<char>>::empty());
        assert(s.filter_map(fm) =~= Seq::<Seq<char>>::empty());
        assert(s.filter_map(fa) =~= Seq::<Seq<char>>::empty());
        let e = Seq::<Seq<char>>::empty();
        e.to_multiset_ensures();
        vstd::multiset::lemma_multiset_empty_len(e.to_multiset());
        assert(e.to_multiset().add(e.to_multiset()) =~= e.to_multiset());
    } else {
        let d = s.drop_last();
        let x = s.last();
        lemma_split_names(v, guild_id, user_id, filter, d);
        let (j0, m0, a0) = (d.filter_map(fj), d.filter_map(fm), d.filter_map(fa));
        assert(j0.to_multiset().add(m0.to_multiset()) == a0.to_multiset());
        assert(s =~= d.push(x));
        if fa(x) is Some {
            let n = x.name;
            assert(s.filter_map(fa) =~= a0.push(n));
            assert(a0.push(n).to_multiset() == a0.to_multiset().insert(n));
            if has_membership(v.memberships, user_id, x.list_id) {
                assert(s.filter_map(fj) =~= j0);
                assert(s.filter_map(fm) =~= m0.push(n));
                assert(m0.push(n).to_multiset() == m0.to_multiset().insert(n));
                assert(j0.to_multiset().add(m0.to_multiset().insert(n))
                    =~= j0.to_multiset().add(m0.to_multiset()).insert(n));
                assert(s.filter_map(fj).to_multiset().add(s.filter_map(fm).to_multiset())
                    == s.filter_map(fa).to_multiset());
            } else {
                assert(s.filter_map(fj) =~= j0.push(n));
                assert(s.filter_map(fm) =~= m0);
                assert(j0.push(n).to_multiset() == j0.to_multiset().insert(n));
                assert(j0.to_multiset().insert(n).add(m0.to_multiset())
                    =~= j0.to_multiset().add(m0.to_multiset()).insert(n));
                assert(s.filter_map(fj).to_multiset().add(s.filter_map(fm).to_multiset())
                    == s.filter_map(fa).to_multiset());
            }
        } else {
            assert(s.filter_map(fj) =~= j0);
            assert(s.filter_map(fm) =~= m0);
            assert(s.filter_map(fa) =~= a0);
        }
    }
}

/// The names of the lists a user can still join and of the lists the user
/// is in, searched over all lists, split the names the plain search finds:
/// together they are exactly those names, and no name row is in both. A
/// search limited to at least that many names returns them all.
/// `get_list_aliases_by_search`, `get_list_joinable_by_search` and
/// `get_list_membership_by_search` (with `show_all`) return `window`s of these
/// three sequences.
pub proof fn law_member_searches_split_names(v: DbView, guild_id: u64, user_id: u64, filter: Seq<char>, limit: int)
    ensures
        ({
            let all = v.aliases.filter_map(ping_hit(v.lists, guild_id, filter, true));
            let joinable = v.aliases.filter_map(joinable_hit(v, guild_id, user_id, filter, true));
            let member = v.aliases.filter_map(membership_hit(v, guild_id, user_id, filter, true));
            &&& joinable.to_multiset().add(member.to_multiset()) == all.to_multiset()
            &&& forall|a: AliasV| !(#[trigger] joinable_hit(v, guild_id, user_id, filter, true)(a) is Some
                && membership_hit(v, guild_id, user_id, filter, true)(a) is Some)
            &&& limit >= all.len() ==> window(all, 0, limit) == all && window(joinable, 0, limit) == joinable
                && window(member, 0, limit) == member
        }),
{
    broadcast use vstd::multiset::group_multiset_axioms;

    lemma_split_names(v, guild_id, user_id, filter, v.aliases);
    let all = v.aliases.filter_map(ping_hit(v.lists, guild_id, filter, true));
    let joinable = v.aliases.filter_map(joinable_hit(v, guild_id, user_id, filter, true));
    let member = v.aliases.filter_map(membership_hit(v, guild_id, user_id, filter, true));
    all.to_multiset_ensures();
    joinable.to_multiset_ensures();
    member.to_multiset_ensures();
    assert(joinable.to_multiset().len() + member.to_multiset().len() == all.to_multiset().len());
    if limit >= all.len() {
        assert(all.subrange(0, all.len() as int) =~= all);
        assert(joinable.subrange(0, joinable.len() as int) =~= joinable);
        assert(member.subrange(0, member.len() as int) =~= member);
    }
}

} // verus!
