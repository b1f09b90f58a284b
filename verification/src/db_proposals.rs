use vstd::prelude::*;

use crate::database::{
    AliasV, Database, DbView, I64_MAX, ListV, ProposalRow, has_guild_row, has_list_row,
    keys_increasing, list_keys, proposal_keys, sql_int,
};
use crate::db_lists::{
    ListField, insert_alias, list_of, list_room, member_of, name_of_list, new_list, next_list_id,
    proposal_kept, strings_view, update_lists,
};
use crate::structures::{ListId, PERMISSION, ProposalStatus};

verus! {

/// The row a proposed list starts with: hidden, and neither joinable nor
/// pingable until it is accepted.
pub open spec fn proposed_list(id: u64, guild_id: u64) -> ListV {
    ListV {
        ping_permission: PERMISSION::DENY,
        join_permission: PERMISSION::DENY,
        visible: false,
        ..new_list(id, guild_id)
    }
}

/// How many members (votes) a list has.
pub open spec fn vote_count(v: DbView, list_id: u64) -> nat {
    v.memberships.filter_map(member_of(list_id)).len()
}

/// The running proposal `p` as reported.
pub open spec fn active_status(v: DbView, p: ProposalRow) -> ProposalStatus {
    ProposalStatus::ACTIVE(p.list_id, vote_count(v, p.list_id) as usize, p.timestamp as u64, p.channel_id, p.message_id)
}

pub open spec fn has_proposal(proposals: Seq<ProposalRow>, list_id: u64) -> bool {
    exists|j: int| 0 <= j < proposals.len() && (#[trigger] proposals[j]).list_id == list_id
}

/// The proposal of a list (keys are unique, so there is at most one).
pub open spec fn proposal_of(proposals: Seq<ProposalRow>, list_id: u64) -> ProposalRow {
    proposals[choose|i: int| 0 <= i < proposals.len() && proposals[i].list_id == list_id]
}

/// A proposal can be read back: its start time as an unsigned number, and
/// its channel and message as ids, which are never 0 (the message is 0 until
/// the proposal's announcement is recorded).
pub open spec fn proposal_readable(p: ProposalRow) -> bool {
    &&& p.timestamp >= 0
    &&& p.channel_id != 0
    &&& p.message_id != 0
}

/// Every proposal that `get_proposals` reports for the guild can be read.
pub open spec fn guild_proposals_readable(v: DbView, guild_id: u64) -> bool {
    forall|j: int| 0 <= j < v.proposals.len() && (#[trigger] proposal_entry(v, guild_id)(v.proposals[j])) is Some
        ==> proposal_readable(v.proposals[j])
}

/// Every proposal can be read, and its list's guild is a valid id.
pub open spec fn bot_proposals_readable(v: DbView) -> bool {
    forall|j: int| 0 <= j < v.proposals.len() ==> proposal_readable(#[trigger] v.proposals[j])
        && list_of(v.lists, v.proposals[j].list_id).guild_id != 0
}

/// `UPDATE proposals SET message_id = .. WHERE list_id = ..`.
pub open spec fn set_proposal_message(proposals: Seq<ProposalRow>, list_id: u64, message_id: u64) -> Seq<ProposalRow> {
    proposals.map_values(|p: ProposalRow| if p.list_id == list_id { ProposalRow { message_id, ..p } } else { p })
}

/// A guild's proposal as listed: the list's first name and its status.
pub open spec fn proposal_entry(v: DbView, guild_id: u64) -> spec_fn(ProposalRow) -> Option<(Seq<char>, ProposalStatus)> {
    |p: ProposalRow| if list_of(v.lists, p.list_id).guild_id == guild_id
        && v.aliases.filter_map(name_of_list(p.list_id)).len() > 0 {
        Some((v.aliases.filter_map(name_of_list(p.list_id))[0], active_status(v, p)))
    } else {
        None
    }
}

/// Every proposal with the guild of its list.
pub open spec fn bot_proposal_entry(v: DbView) -> spec_fn(ProposalRow) -> (u64, ProposalStatus) {
    |p: ProposalRow| (list_of(v.lists, p.list_id).guild_id, active_status(v, p))
}

pub open spec fn named_statuses(s: Seq<(String, ProposalStatus)>) -> Seq<(Seq<char>, ProposalStatus)> {
    s.map_values(|e: (String, ProposalStatus)| (e.0@, e.1))
}

pub proof fn lemma_proposal_of(proposals: Seq<ProposalRow>, list_id: u64, i: int)
    requires
        keys_increasing(proposal_keys(proposals)),
        0 <= i < proposals.len(),
        proposals[i].list_id == list_id,
    ensures
        proposal_of(proposals, list_id) == proposals[i],
{
    let k = choose|k: int| 0 <= k < proposals.len() && proposals[k].list_id == list_id;
    assert(0 <= k < proposals.len() && proposals[k].list_id == list_id);
    if k < i {
        assert(proposal_keys(proposals)[k] < proposal_keys(proposals)[i]);
    } else if i < k {
        assert(proposal_keys(proposals)[i] < proposal_keys(proposals)[k]);
    }
}

impl Database {
    pub(crate) fn find_proposal(&self, list_id: u64) -> (res: Option<usize>)
        requires
            self@.wf(),
        ensures
            res matches Some(i) ==> i < self@.proposals.len() && self@.proposals[i as int].list_id == list_id
                && proposal_of(self@.proposals, list_id) == self@.proposals[i as int],
            res is None ==> !has_proposal(self@.proposals, list_id),
    {
        let mut i: usize = 0;
        while i < self.proposals.len()
            invariant
                self@.wf(),
                i <= self.proposals.len(),
                forall|j: int| 0 <= j < i ==> (#[trigger] self@.proposals[j]).list_id != list_id,
            decreases self.proposals.len() - i,
        {
            if self.proposals[i].list_id == list_id {
                proof {
                    lemma_proposal_of(self@.proposals, list_id, i as int);
                }
                return Some(i);
            }
            i += 1;
        }
        None
    }

    /// Creates a hidden, closed list for a proposal and opens the proposal,
    /// started at `timestamp` in `channel_id`.
    pub fn start_proposal(&mut self, guild_id: u64, name: &str, timestamp: i64, channel_id: u64) -> (res: Option<ListId>)
        requires
            old(self)@.wf(),
            sql_int(guild_id),
            has_guild_row(old(self)@.guilds, guild_id),
            list_room(old(self)@.lists),
            sql_int(channel_id),
        ensures
            final(self)@.wf(),
            res == Some(next_list_id(old(self)@.lists)),
            final(self)@ == old(self)@.with_lists(
                old(self)@.lists.push(proposed_list(next_list_id(old(self)@.lists), guild_id)),
            ).with_aliases(
                insert_alias(old(self)@.aliases, AliasV { list_id: next_list_id(old(self)@.lists), name: name@ }),
            ).with_proposals(
                old(self)@.proposals.push(ProposalRow {
                    list_id: next_list_id(old(self)@.lists),
                    timestamp,
                    channel_id,
                    message_id: 0,
                }),
            ),
    {
        let ghost old_v = self@;
        let list_id = self.add_list(guild_id, name).unwrap();
        let ghost id = next_list_id(old_v.lists);
        let ghost l1 = old_v.lists.push(new_list(id, guild_id));
        proof {
            assert forall|j: int| 0 <= j < old_v.lists.len() implies (#[trigger] old_v.lists[j]).id < id by {
                assert(list_keys(old_v.lists)[j] <= list_keys(old_v.lists)[old_v.lists.len() - 1]);
            }
        }
        self.set_pingable(list_id, PERMISSION::DENY);
        self.set_joinable(list_id, PERMISSION::DENY);
        self.set_visible(list_id, false);
        proof {
            let l2 = update_lists(update_lists(update_lists(l1, id, ListField::Ping(PERMISSION::DENY)), id,
                ListField::Join(PERMISSION::DENY)), id, ListField::Visible(false));
            assert(l2 =~= old_v.lists.push(proposed_list(id, guild_id)));
            assert forall|j: int| 0 <= j < old_v.proposals.len() implies (#[trigger] old_v.proposals[j]).list_id < id by {
                assert(has_list_row(old_v.lists, old_v.proposals[j].list_id));
                let k = choose|k: int| 0 <= k < old_v.lists.len() && #[trigger] old_v.lists[k].id == old_v.proposals[j].list_id;
            }
        }
        let ghost mid = self@;
        self.proposals.push(ProposalRow { list_id, timestamp, channel_id, message_id: 0 });
        proof {
            let n = self@;
            let p2 = n.proposals;
            assert(n == mid.with_proposals(p2));
            assert forall|i: int, j: int| 0 <= i < j < p2.len() implies proposal_keys(p2)[i] < proposal_keys(p2)[j] by {
                if j < mid.proposals.len() {
                    assert(proposal_keys(mid.proposals)[i] < proposal_keys(mid.proposals)[j]);
                }
            }
            assert forall|i: int| 0 <= i < p2.len() implies has_list_row(n.lists, #[trigger] p2[i].list_id)
                && crate::database::proposal_row_ok(p2[i]) by {
                if i < mid.proposals.len() {
                    assert(p2[i] == mid.proposals[i]);
                } else {
                    assert(n.lists[n.lists.len() - 1].id == list_id);
                }
            }
        }
        Some(list_id)
    }

    /// Records the message that announces a proposal.
    pub fn complete_proposal(&mut self, list_id: ListId, message_id: u64)
        requires
            old(self)@.wf(),
            sql_int(list_id),
            sql_int(message_id),
        ensures
            final(self)@.wf(),
            final(self)@ == old(self)@.with_proposals(set_proposal_message(old(self)@.proposals, list_id, message_id)),
    {
        let ghost old_v = self@;
        let mut i: usize = 0;
        while i < self.proposals.len()
            invariant
                i <= self.proposals.len(),
                self.proposals.len() == old_v.proposals.len(),
                self@ == old_v.with_proposals(self.proposals@),
                forall|j: int| 0 <= j < i ==> (#[trigger] self.proposals@[j]) == (if old_v.proposals[j].list_id == list_id {
                    ProposalRow { message_id, ..old_v.proposals[j] }
                } else {
                    old_v.proposals[j]
                }),
                forall|j: int| i <= j < self.proposals.len() ==> (#[trigger] self.proposals@[j]) == old_v.proposals[j],
            decreases self.proposals.len() - i,
        {
            if self.proposals[i].list_id == list_id {
                let mut p = self.proposals[i];
                p.message_id = message_id;
                self.proposals.set(i, p);
            }
            i += 1;
        }
        proof {
            let n = self@;
            assert(n.proposals =~= set_proposal_message(old_v.proposals, list_id, message_id));
            assert(proposal_keys(n.proposals) =~= proposal_keys(old_v.proposals));
            assert forall|k: int| 0 <= k < n.proposals.len() implies has_list_row(n.lists, #[trigger] n.proposals[k].list_id)
                && crate::database::proposal_row_ok(n.proposals[k]) by {
                assert(n.proposals[k].list_id == old_v.proposals[k].list_id);
                assert(has_list_row(old_v.lists, old_v.proposals[k].list_id));
                assert(crate::database::proposal_row_ok(old_v.proposals[k]));
            }
        }
    }

    /// Ends a list's proposal and opens the list: visible, joinable and
    /// pingable. Answers `false`, changing nothing, only when the key is not a
    /// SQL integer.
    pub fn accept_proposal(&mut self, list_id: ListId) -> (res: bool)
        requires
            old(self)@.wf(),
        ensures
            final(self)@.wf(),
            res == sql_int(list_id),
            !res ==> final(self)@ == old(self)@,
            res ==> final(self)@ == old(self)@.with_proposals(
                old(self)@.proposals.filter(proposal_kept(list_id)),
            ).with_lists(
                update_lists(
                    update_lists(
                        update_lists(old(self)@.lists, list_id, ListField::Ping(PERMISSION::NEUTRAL)),
                        list_id,
                        ListField::Join(PERMISSION::NEUTRAL),
                    ),
                    list_id,
                    ListField::Visible(true),
                ),
            ),
    {
        if self.remove_proposal(list_id).is_ok() {
            self.set_pingable(list_id, PERMISSION::NEUTRAL);
            self.set_joinable(list_id, PERMISSION::NEUTRAL);
            self.set_visible(list_id, true);
            true
        } else {
            false
        }
    }

    /// Counts a vote: the voter joins the proposed list.
    pub fn vote_proposal(&mut self, list_id: ListId, member_id: u64)
        requires
            old(self)@.wf(),
            sql_int(list_id),
            sql_int(member_id),
        ensures
            final(self)@.wf(),
            final(self)@ == old(self)@.with_memberships(
                if !crate::db_lists::has_membership(old(self)@.memberships, member_id, list_id)
                    && has_list_row(old(self)@.lists, list_id) {
                    old(self)@.memberships.push(crate::database::MembershipRow { user_id: member_id, list_id })
                } else {
                    old(self)@.memberships
                },
            ),
    {
        let _ = self.add_member(member_id, list_id);
    }

    fn count_votes(&mut self, list_id: ListId) -> (res: usize)
        requires
            old(self)@.wf(),
            sql_int(list_id),
        ensures
            final(self)@ == old(self)@,
            res as nat == vote_count(old(self)@, list_id),
    {
        self.get_members_in_list(list_id).len()
    }

    /// A list's proposal: running, with its votes, or gone.
    pub fn get_proposal_data(&mut self, list_id: ListId) -> (res: ProposalStatus)
        requires
            old(self)@.wf(),
            sql_int(list_id),
            has_proposal(old(self)@.proposals, list_id) ==> proposal_readable(proposal_of(old(self)@.proposals, list_id)),
        ensures
            final(self)@ == old(self)@,
            has_proposal(old(self)@.proposals, list_id) ==> res == active_status(
                old(self)@,
                proposal_of(old(self)@.proposals, list_id),
            ),
            !has_proposal(old(self)@.proposals, list_id) ==> res == ProposalStatus::REMOVED,
    {
        let votes = self.count_votes(list_id);
        match self.find_proposal(list_id) {
            Some(i) => {
                let p = self.proposals[i];
                ProposalStatus::ACTIVE(list_id, votes, p.timestamp as u64, p.channel_id, p.message_id)
            },
            None => ProposalStatus::REMOVED,
        }
    }

    /// The running proposals of a guild, in list order, each under the list's
    /// first name; lists without a name are left out.
    pub fn get_proposals(&mut self, guild_id: u64) -> (res: Vec<(String, ProposalStatus)>)
        requires
            old(self)@.wf(),
            sql_int(guild_id),
            guild_proposals_readable(old(self)@, guild_id),
        ensures
            final(self)@ == old(self)@,
            named_statuses(res@) == old(self)@.proposals.filter_map(proposal_entry(old(self)@, guild_id)),
    {
        let ghost v = self@;
        let mut res: Vec<(String, ProposalStatus)> = Vec::new();
        let mut i: usize = 0;
        while i < self.proposals.len()
            invariant
                self@ == v,
                v.wf(),
                guild_proposals_readable(v, guild_id),
                i <= self.proposals.len(),
                named_statuses(res@) == v.proposals.take(i as int).filter_map(proposal_entry(v, guild_id)),
            decreases self.proposals.len() - i,
        {
            proof {
                v.proposals.lemma_filter_map_take_succ(proposal_entry(v, guild_id), i as int);
            }
            let p = self.proposals[i];
            proof {
                assert(crate::database::proposal_row_ok(v.proposals[i as int]));
                assert(has_list_row(v.lists, v.proposals[i as int].list_id));
            }
            let k = self.find_list(p.list_id).unwrap();
            if self.lists[k].guild_id == guild_id {
                let names = self.get_list_names(p.list_id);
                if names.len() > 0 {
                    let votes = self.count_votes(p.list_id);
                    let ghost before = res@;
                    res.push((names[0].clone(), ProposalStatus::ACTIVE(p.list_id, votes, p.timestamp as u64, p.channel_id, p.message_id)));
                    proof {
                        assert(strings_view(names@)[0] == names@[0]@);
                        assert(named_statuses(res@) =~= named_statuses(before).push(
                            (names@[0]@, active_status(v, p)),
                        ));
                    }
                }
            }
            i += 1;
        }
        proof {
            assert(v.proposals.take(self.proposals.len() as int) =~= v.proposals);
        }
        res
    }

    /// Every running proposal with the guild of its list, in list order.
    pub fn get_bot_proposals(&mut self) -> (res: Vec<(u64, ProposalStatus)>)
        requires
            old(self)@.wf(),
            bot_proposals_readable(old(self)@),
        ensures
            final(self)@ == old(self)@,
            res@ == old(self)@.proposals.map_values(bot_proposal_entry(old(self)@)),
    {
        let ghost v = self@;
        let mut res: Vec<(u64, ProposalStatus)> = Vec::new();
        let mut i: usize = 0;
        while i < self.proposals.len()
            invariant
                self@ == v,
                v.wf(),
                bot_proposals_readable(v),
                i <= self.proposals.len(),
                res@ == v.proposals.take(i as int).map_values(bot_proposal_entry(v)),
            decreases self.proposals.len() - i,
        {
            let p = self.proposals[i];
            proof {
                assert(crate::database::proposal_row_ok(v.proposals[i as int]));
                assert(has_list_row(v.lists, v.proposals[i as int].list_id));
                assert(v.proposals.take(i + 1) =~= v.proposals.take(i as int).push(p));
            }
            let k = self.find_list(p.list_id).unwrap();
            let g = self.lists[k].guild_id;
            let votes = self.count_votes(p.list_id);
            res.push((g, ProposalStatus::ACTIVE(p.list_id, votes, p.timestamp as u64, p.channel_id, p.message_id)));
            proof {
                assert(res@ =~= v.proposals.take(i + 1).map_values(bot_proposal_entry(v)));
            }
            i += 1;
        }
        proof {
            assert(v.proposals.take(self.proposals.len() as int) =~= v.proposals);
        }
        res
    }
}

} // verus!
