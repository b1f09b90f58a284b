use vstd::prelude::*;
use vstd::string::*;

use crate::database::{
    AliasV, Database, DbView, MembershipRow, ProposalRow, guild_of, has_guild_row, has_list_row, keys_increasing,
    list_keys, sql_int,
};
use crate::db_lists::{
    ListField, has_membership, insert_alias, list_of, list_room, next_list_id, proposal_kept, update_lists,
};
use crate::db_proposals::{
    active_status, bot_proposal_entry, bot_proposals_readable, guild_proposals_readable, has_proposal,
    lemma_proposal_of, named_statuses, proposal_entry, proposal_of, proposal_readable, proposed_list, vote_count,
};
use crate::lists::removed_list;
use crate::db_settings::{channel_of, setting_of};
use crate::ping::{
    permissions_readable, ping_db, read_role_settings, setting_triple, settings_in_guild,
};
use crate::structures::{PERMISSION, Reply, perm_max};
use crate::text::{byte_len, dec, dec_i, parse_u64, parse_u64_spec, push_char, push_dec, push_dec_i64, str_eq, utf8_len};
use crate::membership::{not_allowed, not_allowed_text};
use crate::structures::ProposalStatus;
use crate::configure::fields_view;
use serenity::model::id::{ChannelId, GuildId, MessageId};

verus! {

// ---------------------------------------------------------------------------
// The proposed name
// ---------------------------------------------------------------------------

/// `#` is escaped with a backslash and line breaks are dropped.
pub open spec fn escape_char(c: char) -> Seq<char> {
    if c == '#' {
        seq!['\\', '#']
    } else if c == '\n' {
        Seq::empty()
    } else {
        seq![c]
    }
}

/// `name.replace('#', "\\#").replace('\n', "")`.
pub open spec fn escape_name(s: Seq<char>) -> Seq<char>
    decreases s.len(),
{
    if s.len() == 0 {
        Seq::empty()
    } else {
        escape_name(s.drop_last()) + escape_char(s.last())
    }
}

pub fn escape_list_name(name: &str) -> (res: String)
    ensures
        res@ == escape_name(name@),
{
    let mut res = String::new();
    for c in it: name.chars()
        invariant
            it.seq() == name@,
            res@ == escape_name(name@.take(it.index() as int)),
    {
        proof {
            assert(name@.take(it.index() + 1).drop_last() =~= name@.take(it.index() as int));
            assert(name@.take(it.index() + 1).last() == c);
        }
        let ghost before = res@;
        if c == '#' {
            push_char(&mut res, '\\');
            push_char(&mut res, '#');
        } else if c != '\n' {
            push_char(&mut res, c);
        }
        assert(res@ =~= before + escape_char(c));
    }
    proof {
        assert(name@.take(name@.len() as int) =~= name@);
    }
    res
}

/// The name `/propose` was given, escaped; `None` when the command carries
/// no name. A name of more than 80 bytes is refused.
pub fn propose_request(name: Option<&str>) -> (res: Result<String, Reply>)
    ensures
        match name {
            None => res matches Err(r) && r@ == ("No list name was given."@, true),
            Some(n) => if byte_len(escape_name(n@)) > 80 {
                res matches Err(r) && r@ == ("List name is too long."@, true)
            } else {
                res matches Ok(s) && s@ == escape_name(n@)
            },
        },
{
    match name {
        None => Err(Reply { text: String::from_str("No list name was given."), ephemeral: true }),
        Some(n) => {
            let e = escape_list_name(n);
            if utf8_len(e.as_str()) > 80 {
                Err(Reply { text: String::from_str("List name is too long."), ephemeral: true })
            } else {
                Ok(e)
            }
        },
    }
}

// ---------------------------------------------------------------------------
// Who may propose
// ---------------------------------------------------------------------------

/// The starting point: a moderator may, others as the guild allows.
pub open spec fn propose_base(admin: bool, general_propose: bool) -> PERMISSION {
    if admin {
        PERMISSION::ALLOW
    } else if general_propose {
        PERMISSION::NEUTRAL
    } else {
        PERMISSION::DENY
    }
}

/// `start` combined with the propose permission of each role.
pub open spec fn roles_propose(n: DbView, guild_id: u64, roles: Seq<u64>, start: PERMISSION) -> PERMISSION
    decreases roles.len(),
{
    if roles.len() == 0 {
        start
    } else {
        perm_max(roles_propose(n, guild_id, roles.drop_last(), start), setting_of(n.roles, guild_id, roles.last()).propose_permission)
    }
}

/// The member's propose permission: the guild's rule (or `ALLOW` for a
/// moderator) combined with the channel's, the user's and each role's.
pub open spec fn propose_override(n: DbView, guild_id: u64, user_id: u64, roles: Seq<u64>, channel_id: u64, admin: bool) -> PERMISSION {
    let start = perm_max(
        perm_max(
            propose_base(admin, guild_of(n.guilds, guild_id).general_propose),
            channel_of(n.channels, channel_id).propose_permission,
        ),
        setting_of(n.users, guild_id, user_id).propose_permission,
    );
    roles_propose(n, guild_id, roles, start)
}

/// The store after a proposal for `name` was opened: a hidden, closed list,
/// its name, and the running proposal (its message not yet known).
pub open spec fn proposal_started(n: DbView, guild_id: u64, name: Seq<char>, timestamp: i64, channel_id: u64) -> DbView {
    let id = next_list_id(n.lists);
    n.with_lists(n.lists.push(proposed_list(id, guild_id)))
        .with_aliases(insert_alias(n.aliases, AliasV { list_id: id, name }))
        .with_proposals(n.proposals.push(ProposalRow { list_id: id, timestamp, channel_id, message_id: 0 }))
}

/// What `/propose` did.
#[derive(PartialEq, Eq, Structural, Clone, Copy, Debug)]
pub enum ProposeOutcome {
    Denied,
    Exists,
    Started(u64),
}

/// `/propose`: works out the member's propose permission from the guild,
/// the channel, the user and the roles; unless it is `DENY`, opens a
/// proposal for the list and counts the proposer's vote.
pub fn propose(
    db: &mut Database,
    guild_id: u64,
    channel_id: u64,
    user_id: u64,
    roles: &Vec<u64>,
    member_admin: bool,
    name: &str,
    timestamp: i64,
) -> (res: ProposeOutcome)
    requires
        old(db)@.wf(),
        sql_int(guild_id),
        sql_int(channel_id),
        sql_int(user_id),
        forall|i: int| 0 <= i < roles.len() ==> sql_int(#[trigger] roles@[i]),
        permissions_readable(old(db)@, guild_id, user_id, roles@),
        list_room(old(db)@.lists),
    ensures
        final(db)@.wf(),
        ({
            let n = ping_db(old(db)@, guild_id, user_id, roles@, channel_id);
            let id = next_list_id(n.lists);
            if propose_override(n, guild_id, user_id, roles@, channel_id, member_admin) == PERMISSION::DENY {
                res == ProposeOutcome::Denied && final(db)@ == n
            } else {
                let s = proposal_started(n, guild_id, name@, timestamp, channel_id);
                &&& res == ProposeOutcome::Started(id)
                &&& final(db)@ == s.with_memberships(s.memberships.push(MembershipRow { user_id, list_id: id }))
            }
        }),
{
    let ghost v = db@;
    let ghost n = ping_db(v, guild_id, user_id, roles@, channel_id);
    let (general_propose, _, _) = db.get_propose_settings(guild_id);
    let mut override_canpropose = if member_admin {
        PERMISSION::ALLOW
    } else if general_propose {
        PERMISSION::NEUTRAL
    } else {
        PERMISSION::DENY
    };
    let (_, _, propose_base) = db.get_channel_permissions(guild_id, channel_id);
    override_canpropose = override_canpropose.combine(propose_base);
    let (user_can_propose, _, _) = db.get_user_permissions(guild_id, user_id);
    override_canpropose = override_canpropose.combine(user_can_propose);
    let ghost start = override_canpropose;
    let settings = read_role_settings(db, guild_id, roles);
    assert(db@ == n);
    let mut i: usize = 0;
    proof {
        assert(roles@.take(0) =~= Seq::<u64>::empty());
    }
    while i < settings.len()
        invariant
            i <= settings.len(),
            settings.len() == roles.len(),
            db@ == n,
            forall|j: int| 0 <= j < roles@.len() ==> #[trigger] settings@[j] == setting_triple(setting_of(n.roles, guild_id, roles@[j])),
            override_canpropose == roles_propose(n, guild_id, roles@.take(i as int), start),
        decreases settings.len() - i,
    {
        proof {
            assert(roles@.take(i + 1).drop_last() =~= roles@.take(i as int));
            assert(roles@.take(i + 1).last() == roles@[i as int]);
            assert(settings@[i as int] == setting_triple(setting_of(n.roles, guild_id, roles@[i as int])));
        }
        override_canpropose = override_canpropose.combine(settings[i].0);
        i += 1;
    }
    proof {
        assert(roles@.take(roles.len() as int) =~= roles@);
    }
    if override_canpropose == PERMISSION::DENY {
        return ProposeOutcome::Denied;
    }
    let ghost id = next_list_id(n.lists);
    match db.start_proposal(guild_id, name, timestamp, channel_id) {
        Some(pid) => {
            let ghost s = db@;
            proof {
                let last = s.lists.len() - 1;
                assert(s.lists[last].id == pid);
                assert(crate::database::list_row_ok(s.lists[last]));
                assert(has_list_row(s.lists, pid));
                assert(!has_membership(s.memberships, user_id, pid)) by {
                    if has_membership(s.memberships, user_id, pid) {
                        let j = choose|j: int| 0 <= j < s.memberships.len() && (#[trigger] s.memberships[j]).user_id == user_id
                            && s.memberships[j].list_id == pid;
                        assert(s.memberships[j] == n.memberships[j]);
                        assert(has_list_row(n.lists, pid));
                        let k = choose|k: int| 0 <= k < n.lists.len() && #[trigger] n.lists[k].id == pid;
                        assert(list_keys(n.lists)[k] <= list_keys(n.lists)[n.lists.len() - 1]);
                    }
                }
            }
            db.vote_proposal(pid, user_id);
            ProposeOutcome::Started(pid)
        },
        None => ProposeOutcome::Exists,
    }
}

/// The answer to `/propose`: a title and colour, and for an opened proposal
/// the id of its vote button (otherwise the answer is shown to the caller
/// alone).
pub struct ProposeReply {
    pub title: String,
    pub color: (u8, u8, u8),
    pub vote_button: Option<String>,
}

pub open spec fn propose_reply_view(outcome: ProposeOutcome, name: Seq<char>) -> (Seq<char>, (u8, u8, u8), Option<Seq<char>>) {
    match outcome {
        ProposeOutcome::Denied => ("You do not have permission to use /propose here."@, (255, 0, 0), None),
        ProposeOutcome::Started(pid) => ("A new list has been proposed: "@ + name, (31, 127, 255), Some(dec(pid as nat))),
        ProposeOutcome::Exists => ("This list already exists"@, (0, 255, 0), None),
    }
}

pub fn propose_reply(outcome: ProposeOutcome, name: &str) -> (res: ProposeReply)
    ensures
        (res.title@, res.color, match res.vote_button {
            Some(b) => Some(b@),
            None => None,
        }) == propose_reply_view(outcome, name@),
{
    match outcome {
        ProposeOutcome::Denied => ProposeReply {
            title: String::from_str("You do not have permission to use /propose here."),
            color: (255, 0, 0),
            vote_button: None,
        },
        ProposeOutcome::Started(pid) => {
            let mut title = String::from_str("A new list has been proposed: ");
            title.append(name);
            let mut button = String::new();
            push_dec(&mut button, pid as u128);
            assert(button@ =~= dec(pid as nat));
            ProposeReply { title, color: (31, 127, 255), vote_button: Some(button) }
        },
        ProposeOutcome::Exists => ProposeReply {
            title: String::from_str("This list already exists"),
            color: (0, 255, 0),
            vote_button: None,
        },
    }
}


// ---------------------------------------------------------------------------
// Finding the proposal a message command points at
// ---------------------------------------------------------------------------

/// The first component of a message's only action row: a button that is
/// not a link and has a label (its custom id and label), something else, or
/// nothing at all.
pub enum FirstComponent {
    Missing,
    Other,
    Button(String, String),
}

/// What a proposal command reads of a message it is used on.
pub struct BotMessage {
    pub from_bot: bool,
    pub action_rows: usize,
    pub first: FirstComponent,
    pub message_id: u64,
    pub channel_id: u64,
}

pub enum FirstComponentV {
    Missing,
    Other,
    Button(Seq<char>, Seq<char>),
}

pub struct BotMessageV {
    pub from_bot: bool,
    pub action_rows: usize,
    pub first: FirstComponentV,
    pub message_id: u64,
    pub channel_id: u64,
}

impl View for BotMessage {
    type V = BotMessageV;

    open spec fn view(&self) -> BotMessageV {
        BotMessageV {
            from_bot: self.from_bot,
            action_rows: self.action_rows,
            first: match self.first {
                FirstComponent::Missing => FirstComponentV::Missing,
                FirstComponent::Other => FirstComponentV::Other,
                FirstComponent::Button(c, l) => FirstComponentV::Button(c@, l@),
            },
            message_id: self.message_id,
            channel_id: self.channel_id,
        }
    }
}

pub open spec fn messages_view(ms: Seq<BotMessage>) -> Seq<BotMessageV> {
    ms.map_values(|m: BotMessage| m@)
}

/// The messages can be read: a bot message with one action row has a first
/// component.
pub open spec fn messages_readable(ms: Seq<BotMessageV>) -> bool {
    forall|i: int| 0 <= i < ms.len() && (#[trigger] ms[i]).from_bot && ms[i].action_rows == 1
        ==> !(ms[i].first is Missing)
}

/// The proposal (list, message, channel) of the first bot message whose vote
/// button holds a list key; a labelled button that is not `Vote` ends the
/// search.
pub open spec fn vote_message(ms: Seq<BotMessageV>) -> Option<(u64, u64, u64)>
    decreases ms.len(),
{
    if ms.len() == 0 {
        None
    } else {
        let m = ms[0];
        if m.from_bot && m.action_rows == 1 && m.first is Button {
            let label = m.first->Button_1;
            if label != "Vote"@ {
                None
            } else {
                match parse_u64_spec(m.first->Button_0) {
                    Some(id) => Some((id, m.message_id, m.channel_id)),
                    None => vote_message(ms.drop_first()),
                }
            }
        } else {
            vote_message(ms.drop_first())
        }
    }
}

fn find_vote_message(ms: &Vec<BotMessage>) -> (res: Option<(u64, u64, u64)>)
    ensures
        res == vote_message(messages_view(ms@)),
{
    let ghost all = messages_view(ms@);
    assert(all.skip(0) =~= all);
    let mut i: usize = 0;
    while i < ms.len()
        invariant
            i <= ms.len(),
            all == messages_view(ms@),
            vote_message(all) == vote_message(all.skip(i as int)),
        decreases ms.len() - i,
    {
        let ghost rest = all.skip(i as int);
        assert(rest[0] == ms@[i as int]@);
        assert(rest.drop_first() =~= all.skip(i + 1));
        let m = &ms[i];
        if m.from_bot && m.action_rows == 1 {
            if let FirstComponent::Button(cid, label) = &m.first {
                if !str_eq(label.as_str(), "Vote") {
                    return None;
                }
                if let Some(id) = parse_u64(cid.as_str()) {
                    return Some((id, m.message_id, m.channel_id));
                }
            }
        }
        i += 1;
    }
    assert(all.skip(i as int) =~= Seq::<BotMessageV>::empty());
    None
}

// ---------------------------------------------------------------------------
// Cancelling and accepting a proposal by hand
// ---------------------------------------------------------------------------

/// The store after a proposal was accepted: it ends, and its list opens.
pub open spec fn accepted_list(v: DbView, list_id: u64) -> DbView {
    v.with_proposals(v.proposals.filter(proposal_kept(list_id))).with_lists(
        update_lists(
            update_lists(update_lists(v.lists, list_id, ListField::Ping(PERMISSION::NEUTRAL)), list_id,
                ListField::Join(PERMISSION::NEUTRAL)),
            list_id,
            ListField::Visible(true),
        ),
    )
}

/// The store after a proposal was cancelled: it ends, and a running one
/// takes its list along.
pub open spec fn cancelled_db(v: DbView, list_id: u64) -> DbView {
    let a = v.with_proposals(v.proposals.filter(proposal_kept(list_id)));
    if has_proposal(v.proposals, list_id) {
        removed_list(a, list_id)
    } else {
        a
    }
}

pub open spec fn cancel_title(v: DbView, list_id: u64) -> Seq<char> {
    if has_proposal(v.proposals, list_id) {
        "Voting cancelled"@
    } else if has_list_row(v.lists, list_id) {
        "Proposal already accepted"@
    } else {
        "Proposal already removed"@
    }
}

/// What a proposal command answers, after the proposal message got the
/// outcome's title.
pub open spec fn see_vote_message_text() -> Seq<char> {
    "Check the original proposal message for results."@
}

pub fn see_vote_message_reply() -> (res: Reply)
    ensures
        res@ == (see_vote_message_text(), true),
{
    Reply { text: String::from_str("Check the original proposal message for results."), ephemeral: true }
}

/// The keys that the found proposal message can name are store keys.
pub open spec fn vote_message_ok(ms: Seq<BotMessageV>) -> bool {
    &&& messages_readable(ms)
    &&& vote_message(ms) matches Some(t) ==> sql_int(t.0)
}

/// Cancel proposal (a message command for moderators): finds the vote
/// message it is used on and cancels that proposal, removing its list.
/// Answers the message to edit (message, channel) with its new title.
pub fn cancel_proposal(db: &mut Database, member_admin: bool, messages: &Vec<BotMessage>) -> (res: Result<Option<(u64, u64, String)>, Reply>)
    requires
        old(db)@.wf(),
        member_admin ==> vote_message_ok(messages_view(messages@)),
    ensures
        final(db)@.wf(),
        !member_admin ==> final(db)@ == old(db)@ && (res matches Err(r) && r@ == (not_allowed_text(), true)),
        member_admin ==> match vote_message(messages_view(messages@)) {
            None => res matches Ok(None) && final(db)@ == old(db)@,
            Some((list_id, message_id, channel_id)) => res matches Ok(Some((m, c, t)))
                && m == message_id && c == channel_id && t@ == cancel_title(old(db)@, list_id)
                && final(db)@ == cancelled_db(old(db)@, list_id),
        },
{
    if !member_admin {
        return Err(not_allowed());
    }
    let found = find_vote_message(messages);
    let (list_id, message_id, channel_id) = match found {
        Some(t) => t,
        None => {
            return Ok(None);
        },
    };
    let ghost v = db@;
    let title = match db.remove_proposal(list_id) {
        Ok(true) => {
            let _ = db.remove_list(list_id);
            String::from_str("Voting cancelled")
        },
        _ => {
            if db.get_list_exists(list_id) {
                String::from_str("Proposal already accepted")
            } else {
                String::from_str("Proposal already removed")
            }
        },
    };
    Ok(Some((message_id, channel_id, title)))
}

/// Accept proposal (a message command for moderators): finds the vote
/// message it is used on and accepts that proposal, opening its list.
pub fn accept_proposal(db: &mut Database, member_admin: bool, messages: &Vec<BotMessage>) -> (res: Result<Option<(u64, u64, String)>, Reply>)
    requires
        old(db)@.wf(),
        member_admin ==> vote_message_ok(messages_view(messages@)),
    ensures
        final(db)@.wf(),
        !member_admin ==> final(db)@ == old(db)@ && (res matches Err(r) && r@ == (not_allowed_text(), true)),
        member_admin ==> match vote_message(messages_view(messages@)) {
            None => res matches Ok(None) && final(db)@ == old(db)@,
            Some((list_id, message_id, channel_id)) => res matches Ok(Some((m, c, t)))
                && m == message_id && c == channel_id && t@ == "Proposal acccepted"@
                && final(db)@ == accepted_list(old(db)@, list_id),
        },
{
    if !member_admin {
        return Err(not_allowed());
    }
    let found = find_vote_message(messages);
    let (list_id, message_id, channel_id) = match found {
        Some(t) => t,
        None => {
            return Ok(None);
        },
    };
    let title = if db.accept_proposal(list_id) {
        String::from_str("Proposal acccepted")
    } else if db.get_list_exists(list_id) {
        String::from_str("Proposal already accepted")
    } else {
        String::from_str("Proposal already removed")
    };
    Ok(Some((message_id, channel_id, title)))
}


// ---------------------------------------------------------------------------
// The periodic check of running proposals
// ---------------------------------------------------------------------------

/// The store and the notices (channel, message, accepted) so far.
pub struct CheckState {
    pub db: DbView,
    pub notices: Seq<(u64, u64, bool)>,
}

/// One proposal: accepted once it has the guild's threshold of votes,
/// removed (with its list) once its time is up. A notice goes out when the
/// proposal's message is known; after ten notices the rest waits.
pub open spec fn check_step(st: CheckState, now: u64, e: (u64, ProposalStatus)) -> CheckState {
    if st.notices.len() >= 10 {
        st
    } else {
        match e.1 {
            ProposalStatus::ACTIVE(list_id, votes, ts, ch, msg) => {
                let g = guild_of(st.db.guilds, e.0);
                let notify = ch != 0 && msg != 0;
                if votes >= g.propose_threshold as usize {
                    CheckState {
                        db: accepted_list(st.db, list_id),
                        notices: if notify { st.notices.push((ch, msg, true)) } else { st.notices },
                    }
                } else if ts + g.propose_timeout <= now {
                    CheckState {
                        db: removed_list(st.db.with_proposals(st.db.proposals.filter(proposal_kept(list_id))), list_id),
                        notices: if notify { st.notices.push((ch, msg, false)) } else { st.notices },
                    }
                } else {
                    st
                }
            },
            _ => st,
        }
    }
}

pub open spec fn check_run(start: CheckState, now: u64, entries: Seq<(u64, ProposalStatus)>) -> CheckState
    decreases entries.len(),
{
    if entries.len() == 0 {
        start
    } else {
        check_step(check_run(start, now, entries.drop_last()), now, entries.last())
    }
}

/// The outcome of checking every running proposal at time `now`.
pub open spec fn checked_proposals(v: DbView, now: u64) -> CheckState {
    check_run(CheckState { db: v, notices: Seq::empty() }, now, v.proposals.map_values(bot_proposal_entry(v)))
}

/// What a notice says.
pub fn notice_text(accepted: bool) -> (res: &'static str)
    ensures
        res@ == (if accepted { "Proposal accepted"@ } else { "Proposal timed out"@ }),
{
    if accepted {
        "Proposal accepted"
    } else {
        "Proposal timed out"
    }
}

/// The periodic check: accepts each proposal that has enough votes, removes
/// each that has run out of time, and answers the messages to notify.
pub fn check_proposals(db: &mut Database, now: u64) -> (res: Vec<(u64, u64, bool)>)
    requires
        old(db)@.wf(),
        bot_proposals_readable(old(db)@),
    ensures
        final(db)@.wf(),
        final(db)@ == checked_proposals(old(db)@, now).db,
        res@ == checked_proposals(old(db)@, now).notices,
{
    let ghost v = db@;
    let entries = db.get_bot_proposals();
    let ghost start = CheckState { db: v, notices: Seq::empty() };
    let mut notices: Vec<(u64, u64, bool)> = Vec::new();
    proof {
        assert(entries@.take(0) =~= Seq::<(u64, ProposalStatus)>::empty());
        assert forall|j: int| 0 <= j < entries@.len() implies has_guild_row(v.guilds, (#[trigger] entries@[j]).0) by {
            let p = v.proposals[j];
            assert(has_list_row(v.lists, p.list_id));
            let k = choose|k: int| 0 <= k < v.lists.len() && #[trigger] v.lists[k].id == p.list_id;
            crate::db_lists::lemma_list_of(v.lists, p.list_id, k);
            assert(has_guild_row(v.guilds, v.lists[k].guild_id));
        }
    }
    let mut i: usize = 0;
    while i < entries.len()
        invariant
            i <= entries.len(),
            db@.wf(),
            db@.guilds == v.guilds,
            v.wf(),
            bot_proposals_readable(v),
            entries@ == v.proposals.map_values(bot_proposal_entry(v)),
            forall|j: int| 0 <= j < entries@.len() ==> has_guild_row(v.guilds, (#[trigger] entries@[j]).0),
            check_run(start, now, entries@.take(i as int)) == (CheckState { db: db@, notices: notices@ }),
        decreases entries.len() - i,
    {
        proof {
            assert(entries@.take(i + 1).drop_last() =~= entries@.take(i as int));
            assert(entries@.take(i + 1).last() == entries@[i as int]);
            assert(proposal_readable(v.proposals[i as int]));
            assert(crate::database::proposal_row_ok(v.proposals[i as int]));
            assert(has_guild_row(v.guilds, entries@[i as int].0));
        }
        if notices.len() < 10 {
            let (g, status) = entries[i];
            if let ProposalStatus::ACTIVE(list_id, votes, ts, ch, msg) = status {
                let (_, timeout, threshold) = db.get_propose_settings(g);
                proof {
                    crate::database::lemma_guild_of_ok(db@, g);
                }
                if votes >= threshold {
                    db.accept_proposal(list_id);
                    if ch != 0 && msg != 0 {
                        notices.push((ch, msg, true));
                    }
                } else if ts + timeout <= now {
                    let _ = db.remove_proposal(list_id);
                    let _ = db.remove_list(list_id);
                    if ch != 0 && msg != 0 {
                        notices.push((ch, msg, false));
                    }
                }
            }
        }
        i += 1;
    }
    proof {
        assert(entries@.take(entries.len() as int) =~= entries@);
    }
    notices
}


// ---------------------------------------------------------------------------
// `/list_proposals`
// ---------------------------------------------------------------------------

/// Division rounding toward zero, as Rust's `/` on signed integers.
pub open spec fn tdiv(a: int, b: int) -> int {
    if a >= 0 {
        a / b
    } else {
        -((-a) / b)
    }
}

/// The link to a message in a guild channel.
pub open spec fn message_link(guild_id: u64, channel_id: u64, message_id: u64) -> Seq<char> {
    "https://discord.com/channels/"@ + dec(guild_id as nat) + "/"@ + dec(channel_id as nat) + "/"@ + dec(message_id as nat)
}

/// The address of a message in a guild channel: serenity's `MessageId::link`
/// given the guild, which formats `https://discord.com/channels/` followed by
/// the guild, channel and message ids in decimal, separated by `/`. Trusted:
/// the contract claims exactly that text. The ids are never 0, which
/// serenity's id types refuse with a panic.
#[verifier::external_body]
fn message_link_text(guild_id: u64, channel_id: u64, message_id: u64) -> (res: String)
    requires
        guild_id != 0,
        channel_id != 0,
        message_id != 0,
    ensures
        res@ == message_link(guild_id, channel_id, message_id),
{
    MessageId::new(message_id).link(ChannelId::new(channel_id), Some(GuildId::new(guild_id)))
}

/// Appends the address of a message in a guild channel.
pub fn push_message_link(s: &mut String, guild_id: u64, channel_id: u64, message_id: u64)
    requires
        guild_id != 0,
        channel_id != 0,
        message_id != 0,
    ensures
        final(s)@ == old(s)@ + message_link(guild_id, channel_id, message_id),
{
    let link = message_link_text(guild_id, channel_id, message_id);
    s.append(link.as_str());
}

/// A proposal's line: its votes out of the threshold, the time left (whole
/// minutes, as hours and minutes, negative once past), and a link to its
/// message when it has one.
pub open spec fn proposal_line(guild_id: u64, st: ProposalStatus, timeout: u64, threshold: usize, now: u64) -> Seq<char> {
    match st {
        ProposalStatus::ACTIVE(_, votes, ts, ch, msg) => {
            let minutes = tdiv(timeout - (now - ts), 60);
            let hours = tdiv(minutes, 60);
            let rest = minutes - 60 * hours;
            let line = "Has "@ + dec(votes as nat) + " / "@ + dec(threshold as nat) + " votes, "@ + dec_i(hours)
                + " hours and "@ + dec_i(rest) + " minutes remaining."@;
            if msg == 0 {
                line
            } else {
                line + "\n"@ + message_link(guild_id, ch, msg)
            }
        },
        _ => Seq::empty(),
    }
}

/// The running proposals of the guild: a title when there is none, and a
/// field (shown inline) per proposal, under its list's name.
pub struct ProposalListing {
    pub title: Option<String>,
    pub fields: Vec<(String, String)>,
}

pub open spec fn listing_fields(v: DbView, guild_id: u64, now: u64) -> Seq<(Seq<char>, Seq<char>)> {
    let g = guild_of(v.guilds, guild_id);
    v.proposals.filter_map(proposal_entry(v, guild_id)).map_values(
        |e: (Seq<char>, ProposalStatus)| (e.0, proposal_line(guild_id, e.1, g.propose_timeout, g.propose_threshold as usize, now)),
    )
}

/// The guild's proposals started no later than `now`, and not so long
/// before that the elapsed time overflows a signed number.
pub open spec fn proposal_times_before(v: DbView, guild_id: u64, now: u64) -> bool {
    forall|j: int| 0 <= j < v.proposals.len() && (#[trigger] proposal_entry(v, guild_id)(v.proposals[j])) is Some
        ==> v.proposals[j].timestamp <= now <= v.proposals[j].timestamp + crate::database::I64_MAX
}

pub fn list_proposals(db: &mut Database, guild_id: u64, now: u64) -> (res: ProposalListing)
    requires
        old(db)@.wf(),
        sql_int(guild_id),
        guild_id != 0,
        has_guild_row(old(db)@.guilds, guild_id),
        guild_proposals_readable(old(db)@, guild_id),
        proposal_times_before(old(db)@, guild_id, now),
    ensures
        final(db)@ == old(db)@,
        fields_view(res.fields@) == listing_fields(old(db)@, guild_id, now),
        match res.title {
            Some(t) => t@ == "No proposals found"@ && listing_fields(old(db)@, guild_id, now).len() == 0,
            None => listing_fields(old(db)@, guild_id, now).len() > 0,
        },
{
    let ghost v = db@;
    let (_, timeout, threshold) = db.get_propose_settings(guild_id);
    proof {
        crate::database::lemma_guild_of_ok(v, guild_id);
    }
    let proposals = db.get_proposals(guild_id);
    let ghost entries = v.proposals.filter_map(proposal_entry(v, guild_id));
    let title = if proposals.len() == 0 {
        Some(String::from_str("No proposals found"))
    } else {
        None
    };
    let mut fields: Vec<(String, String)> = Vec::new();
    let mut i: usize = 0;
    while i < proposals.len()
        invariant
            i <= proposals.len(),
            named_statuses(proposals@) == entries,
            entries == v.proposals.filter_map(proposal_entry(v, guild_id)),
            proposal_times_before(v, guild_id, now),
            guild_proposals_readable(v, guild_id),
            guild_id != 0,
            timeout == guild_of(v.guilds, guild_id).propose_timeout,
            threshold == guild_of(v.guilds, guild_id).propose_threshold as usize,
            timeout <= crate::database::I64_MAX,
            fields_view(fields@) == entries.take(i as int).map_values(
                |e: (Seq<char>, ProposalStatus)| (e.0, proposal_line(guild_id, e.1, timeout, threshold, now)),
            ),
        decreases proposals.len() - i,
    {
        let (name, status) = (&proposals[i].0, proposals[i].1);
        proof {
            assert(entries[i as int] == (name@, status));
            assert(entries.contains(entries[i as int]));
            v.proposals.lemma_filter_map_contains(proposal_entry(v, guild_id), entries[i as int]);
            let p = choose|p: ProposalRow| #[trigger] v.proposals.contains(p) && proposal_entry(v, guild_id)(p) == Some(entries[i as int]);
            let j = choose|j: int| 0 <= j < v.proposals.len() && v.proposals[j] == p;
            assert(proposal_entry(v, guild_id)(v.proposals[j]) is Some);
            assert(proposal_readable(v.proposals[j]));
            assert(status == active_status(v, p));
        }
        let mut text = String::new();
        if let ProposalStatus::ACTIVE(_, votes, ts, ch, msg) = status {
            let elapsed: i128 = now as i128 - ts as i128;
            let left: i128 = timeout as i128 - elapsed;
            let minutes: i128 = if left >= 0 {
                left / 60
            } else {
                -((-left) / 60)
            };
            let hours: i128 = if minutes >= 0 {
                minutes / 60
            } else {
                -((-minutes) / 60)
            };
            let rest: i128 = minutes - 60 * hours;
            text.append("Has ");
            push_dec(&mut text, votes as u128);
            text.append(" / ");
            push_dec(&mut text, threshold as u128);
            text.append(" votes, ");
            push_dec_i64(&mut text, hours as i64);
            text.append(" hours and ");
            push_dec_i64(&mut text, rest as i64);
            text.append(" minutes remaining.");
            if msg != 0 {
                text.append("\n");
                push_message_link(&mut text, guild_id, ch, msg);
            }
        }
        proof {
            assert(text@ =~= proposal_line(guild_id, status, timeout, threshold, now));
        }
        let ghost before = fields@;
        fields.push((name.clone(), text));
        proof {
            assert(entries.take(i + 1) =~= entries.take(i as int).push(entries[i as int]));
            assert(fields_view(fields@) =~= fields_view(before).push((name@, proposal_line(guild_id, status, timeout, threshold, now))));
        }
        i += 1;
    }
    proof {
        assert(entries.take(proposals.len() as int) =~= entries);
        assert(named_statuses(proposals@).len() == proposals@.len());
    }
    ProposalListing { title, fields }
}


// ---------------------------------------------------------------------------
// Votes
// ---------------------------------------------------------------------------

/// The store after a vote: the voter joins the list (if it exists and the
/// voter is not in it yet).
pub open spec fn voted(v: DbView, list_id: u64, user_id: u64) -> DbView {
    v.with_memberships(
        if !has_membership(v.memberships, user_id, list_id) && has_list_row(v.lists, list_id) {
            v.memberships.push(MembershipRow { user_id, list_id })
        } else {
            v.memberships
        },
    )
}

/// A proposal's state after a vote: gone, accepted once it has the guild's
/// threshold of votes, or still running.
pub open spec fn check_status(v: DbView, list_id: u64) -> ProposalStatus {
    if !has_proposal(v.proposals, list_id) {
        ProposalStatus::REMOVED
    } else {
        let g = guild_of(v.guilds, list_of(v.lists, list_id).guild_id);
        if vote_count(v, list_id) as usize >= g.propose_threshold as usize {
            ProposalStatus::ACCEPTED(list_id)
        } else {
            active_status(v, proposal_of(v.proposals, list_id))
        }
    }
}

pub open spec fn check_db(v: DbView, list_id: u64) -> DbView {
    if check_status(v, list_id) is ACCEPTED {
        accepted_list(v, list_id)
    } else {
        v
    }
}

/// The list's proposal, if it runs, can be read, and the list's guild is a
/// valid id.
pub open spec fn proposal_checkable(v: DbView, list_id: u64) -> bool {
    has_proposal(v.proposals, list_id) ==> proposal_readable(proposal_of(v.proposals, list_id))
        && list_of(v.lists, list_id).guild_id != 0
}

/// Accepts the list's proposal once it has enough votes.
pub fn check_proposal(db: &mut Database, list_id: u64) -> (res: ProposalStatus)
    requires
        old(db)@.wf(),
        sql_int(list_id),
        proposal_checkable(old(db)@, list_id),
    ensures
        final(db)@.wf(),
        res == check_status(old(db)@, list_id),
        final(db)@ == check_db(old(db)@, list_id),
{
    let ghost v = db@;
    let status = db.get_proposal_data(list_id);
    let (votes, timestamp, t1, t2) = match status {
        ProposalStatus::ACTIVE(_, votes, timestamp, t1, t2) => (votes, timestamp, t1, t2),
        _ => {
            return ProposalStatus::REMOVED;
        },
    };
    proof {
        let j = choose|j: int| 0 <= j < v.proposals.len() && (#[trigger] v.proposals[j]).list_id == list_id;
        assert(has_list_row(v.lists, v.proposals[j].list_id));
        let k = choose|k: int| 0 <= k < v.lists.len() && #[trigger] v.lists[k].id == list_id;
        crate::db_lists::lemma_list_of(v.lists, list_id, k);
        assert(has_guild_row(v.guilds, v.lists[k].guild_id));
        lemma_proposal_of(v.proposals, list_id, j);
    }
    let guild_id = match db.get_list_guild(list_id) {
        Ok(g) => g,
        Err(_) => 0,
    };
    let (_, _, vote_threshold) = db.get_propose_settings(guild_id);
    if votes >= vote_threshold {
        db.accept_proposal(list_id);
        return ProposalStatus::ACCEPTED(list_id);
    }
    ProposalStatus::ACTIVE(list_id, votes, timestamp, t1, t2)
}

/// What the vote message showed: the author (name, icon) when it had one
/// with an icon, and its title.
pub struct OldEmbed {
    pub author: Option<(String, String)>,
    pub title: Option<String>,
}

/// The vote message after a vote: author, title and description; the vote
/// button stays only while the proposal runs.
pub struct VoteReply {
    pub author: Option<(String, String)>,
    pub title: Option<String>,
    pub description: String,
    pub keep_button: bool,
}

pub open spec fn pair_view(p: Option<(String, String)>) -> Option<(Seq<char>, Seq<char>)> {
    match p {
        Some((a, b)) => Some((a@, b@)),
        None => None,
    }
}

pub open spec fn string_opt_view(s: Option<String>) -> Option<Seq<char>> {
    match s {
        Some(t) => Some(t@),
        None => None,
    }
}

pub open spec fn vote_reply_view(
    status: ProposalStatus,
    old: Option<(Option<(Seq<char>, Seq<char>)>, Option<Seq<char>>)>,
) -> (Option<(Seq<char>, Seq<char>)>, Option<Seq<char>>, Seq<char>, bool) {
    match status {
        ProposalStatus::ACCEPTED(_) => (None, None, "Proposal accepted"@, false),
        ProposalStatus::DENIED => (None, None, "Proposal expired"@, false),
        ProposalStatus::REMOVED => (None, None, "Proposal not found"@, false),
        ProposalStatus::ACTIVE(_, votes, _, _, _) => match old {
            Some((author, title)) => (
                author,
                Some(match title {
                    Some(t) => t,
                    None => "Missing proposal title"@,
                }),
                "Votes: "@ + dec(votes as nat),
                true,
            ),
            None => (None, Some("Someone removed this embed, shame on them!"@), "Votes: "@ + dec(votes as nat), true),
        },
    }
}

/// A press of a vote button whose id is `custom_id`: the voter joins the
/// proposed list, and the proposal is accepted once it has enough votes.
pub fn propose_vote(db: &mut Database, custom_id: &str, user_id: u64, old_embed: &Option<OldEmbed>) -> (res: VoteReply)
    requires
        old(db)@.wf(),
        parse_u64_spec(custom_id@) matches Some(id) && sql_int(id)
            && proposal_checkable(voted(old(db)@, id, user_id), id),
        sql_int(user_id),
    ensures
        final(db)@.wf(),
        ({
            let id = parse_u64_spec(custom_id@)->Some_0;
            let v1 = voted(old(db)@, id, user_id);
            &&& final(db)@ == check_db(v1, id)
            &&& (pair_view(res.author), string_opt_view(res.title), res.description@, res.keep_button)
                == vote_reply_view(check_status(v1, id), match old_embed {
                    Some(e) => Some((pair_view(e.author), string_opt_view(e.title))),
                    None => None,
                })
        }),
{
    let list_id = match parse_u64(custom_id) {
        Some(id) => id,
        None => 0,
    };
    db.vote_proposal(list_id, user_id);
    let status = check_proposal(db, list_id);
    match status {
        ProposalStatus::ACCEPTED(_) => VoteReply {
            author: None,
            title: None,
            description: String::from_str("Proposal accepted"),
            keep_button: false,
        },
        ProposalStatus::DENIED => VoteReply {
            author: None,
            title: None,
            description: String::from_str("Proposal expired"),
            keep_button: false,
        },
        ProposalStatus::REMOVED => VoteReply {
            author: None,
            title: None,
            description: String::from_str("Proposal not found"),
            keep_button: false,
        },
        ProposalStatus::ACTIVE(_, votes, _, _, _) => {
            let mut description = String::from_str("Votes: ");
            push_dec(&mut description, votes as u128);
            match old_embed {
                Some(e) => {
                    let author = match &e.author {
                        Some((a, b)) => Some((a.clone(), b.clone())),
                        None => None,
                    };
                    let title = match &e.title {
                        Some(t) => t.clone(),
                        None => String::from_str("Missing proposal title"),
                    };
                    VoteReply { author, title: Some(title), description, keep_button: true }
                },
                None => VoteReply {
                    author: None,
                    title: Some(String::from_str("Someone removed this embed, shame on them!")),
                    description,
                    keep_button: true,
                },
            }
        },
    }
}


// ---------------------------------------------------------------------------
// Checks before the proposal commands
// ---------------------------------------------------------------------------

/// Whether the messages a proposal command is used on can be read (see
/// `vote_message_ok`).
pub fn vote_messages_valid(messages: &Vec<BotMessage>) -> (r: bool)
    ensures
        r == vote_message_ok(messages_view(messages@)),
{
    let ghost ms = messages_view(messages@);
    let mut i: usize = 0;
    while i < messages.len()
        invariant
            i <= messages.len(),
            ms == messages_view(messages@),
            forall|k: int| 0 <= k < i && (#[trigger] ms[k]).from_bot && ms[k].action_rows == 1 ==> !(ms[k].first is Missing),
        decreases messages.len() - i,
    {
        assert(ms[i as int] == messages@[i as int]@);
        let m = &messages[i];
        if m.from_bot && m.action_rows == 1 && matches!(m.first, FirstComponent::Missing) {
            return false;
        }
        i += 1;
    }
    match find_vote_message(messages) {
        Some((id, _, _)) => id <= crate::database::I64_MAX,
        None => true,
    }
}

/// Whether every running proposal can be read for the periodic check (see
/// `bot_proposals_readable`).
pub fn proposals_valid(db: &Database) -> (r: bool)
    requires
        db@.wf(),
    ensures
        r == bot_proposals_readable(db@),
{
    let ghost v = db@;
    let mut i: usize = 0;
    while i < db.proposals.len()
        invariant
            v == db@,
            v.wf(),
            i <= db.proposals.len(),
            forall|k: int| 0 <= k < i ==> proposal_readable(#[trigger] v.proposals[k])
                && list_of(v.lists, v.proposals[k].list_id).guild_id != 0,
        decreases db.proposals.len() - i,
    {
        let p = db.proposals[i];
        if !(p.timestamp >= 0 && p.channel_id != 0 && p.message_id != 0) {
            return false;
        }
        match db.find_list(p.list_id) {
            Some(j) => {
                assert(v.lists[j as int] == db.lists@[j as int]@);
                if db.lists[j].guild_id == 0 {
                    return false;
                }
            },
            None => {
                assert(has_list_row(v.lists, v.proposals[i as int].list_id));
                return false;
            },
        }
        i += 1;
    }
    true
}

/// Whether `/list_proposals` can read the guild's running proposals at time
/// `now` (see `guild_proposals_readable` and `proposal_times_before`).
pub fn proposals_listable(db: &mut Database, guild_id: u64, now: u64) -> (r: bool)
    requires
        old(db)@.wf(),
    ensures
        final(db)@ == old(db)@,
        r == (guild_proposals_readable(old(db)@, guild_id) && proposal_times_before(old(db)@, guild_id, now)),
{
    let ghost v = db@;
    let mut i: usize = 0;
    while i < db.proposals.len()
        invariant
            v == db@,
            v == old(db)@,
            v.wf(),
            i <= db.proposals.len(),
            forall|k: int| 0 <= k < i && (#[trigger] proposal_entry(v, guild_id)(v.proposals[k])) is Some
                ==> proposal_readable(v.proposals[k])
                && v.proposals[k].timestamp <= now <= v.proposals[k].timestamp + crate::database::I64_MAX,
        decreases db.proposals.len() - i,
    {
        let p = db.proposals[i];
        assert(crate::database::proposal_row_ok(v.proposals[i as int]));
        let in_guild = match db.find_list(p.list_id) {
            Some(j) => {
                assert(v.lists[j as int] == db.lists@[j as int]@);
                db.lists[j].guild_id == guild_id
            },
            None => false,
        };
        let listed = in_guild && db.get_list_names(p.list_id).len() > 0;
        proof {
            assert(has_list_row(v.lists, v.proposals[i as int].list_id));
            assert(listed == (proposal_entry(v, guild_id)(v.proposals[i as int]) is Some));
        }
        if listed {
            let ts = p.timestamp as i128;
            let t = now as i128;
            if !(p.timestamp >= 0 && p.channel_id != 0 && p.message_id != 0 && ts <= t
                && t <= ts + 0x7fff_ffff_ffff_ffff) {
                return false;
            }
        }
        i += 1;
    }
    true
}

/// Whether a press of the vote button `custom_id` by `user_id` can be
/// counted (the requirements of `propose_vote`).
pub fn vote_valid(db: &Database, custom_id: &str, user_id: u64) -> (r: bool)
    requires
        db@.wf(),
    ensures
        r == (sql_int(user_id) && (parse_u64_spec(custom_id@) matches Some(id) && sql_int(id)
            && proposal_checkable(voted(db@, id, user_id), id))),
{
    let ghost v = db@;
    if user_id > crate::database::I64_MAX {
        return false;
    }
    let id = match parse_u64(custom_id) {
        Some(id) => id,
        None => {
            return false;
        },
    };
    if id > crate::database::I64_MAX {
        return false;
    }
    assert(voted(v, id, user_id).proposals == v.proposals);
    assert(voted(v, id, user_id).lists == v.lists);
    match db.find_proposal(id) {
        None => true,
        Some(i) => {
            let p = db.proposals[i];
            if !(p.timestamp >= 0 && p.channel_id != 0 && p.message_id != 0) {
                return false;
            }
            match db.find_list(id) {
                Some(j) => {
                    assert(v.lists[j as int] == db.lists@[j as int]@);
                    db.lists[j].guild_id != 0
                },
                None => {
                    assert(has_list_row(v.lists, v.proposals[i as int].list_id));
                    false
                },
            }
        },
    }
}

} // verus!
