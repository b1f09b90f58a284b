use vstd::prelude::*;
use vstd::string::*;

use crate::database::{Database, DbView, MembershipRow, sql_int};
use crate::db_lists::{
    has_membership, lemma_list_named_some, list_named, list_of, membership_kept, strings_view,
};
use crate::structures::{JoinResult, PERMISSION, Reply};
use crate::text::{dec, push_dec};

verus! {

/// Which membership command runs: a member joining or leaving lists, or a
/// moderator adding or kicking a user.
#[derive(PartialEq, Eq, Structural, Clone, Copy, Debug)]
pub enum MemberAction {
    Join,
    Leave,
    Add,
    Kick,
}

pub open spec fn is_adding(action: MemberAction) -> bool {
    action == MemberAction::Join || action == MemberAction::Add
}

/// Adding and kicking act with moderator rights.
pub open spec fn acts_as_admin(action: MemberAction, admin: bool) -> bool {
    match action {
        MemberAction::Add | MemberAction::Kick => true,
        _ => admin,
    }
}

/// The outcome of joining the list named `name`.
pub open spec fn join_decision(v: DbView, guild_id: u64, name: Seq<char>, member_id: u64, as_admin: bool) -> JoinResult {
    match list_named(v, name, guild_id) {
        None => JoinResult::ListDoesNotExist,
        Some(id) => if list_of(v.lists, id).join_permission == PERMISSION::DENY && !as_admin {
            JoinResult::MissingPerms
        } else if has_membership(v.memberships, member_id, id) {
            JoinResult::AlreadyMember
        } else {
            JoinResult::Succes
        },
    }
}

/// The store after joining the list named `name`.
pub open spec fn join_effect(v: DbView, guild_id: u64, name: Seq<char>, member_id: u64, as_admin: bool) -> DbView {
    if join_decision(v, guild_id, name, member_id, as_admin) == JoinResult::Succes {
        v.with_memberships(v.memberships.push(MembershipRow {
            user_id: member_id,
            list_id: list_named(v, name, guild_id)->Some_0,
        }))
    } else {
        v
    }
}

/// The outcome of leaving the list named `name`: `AlreadyMember` stands for
/// "was not a member".
pub open spec fn leave_decision(v: DbView, guild_id: u64, name: Seq<char>, member_id: u64, as_admin: bool) -> JoinResult {
    match list_named(v, name, guild_id) {
        None => JoinResult::ListDoesNotExist,
        Some(id) => if list_of(v.lists, id).join_permission == PERMISSION::DENY && !as_admin {
            JoinResult::MissingPerms
        } else if has_membership(v.memberships, member_id, id) {
            JoinResult::Succes
        } else {
            JoinResult::AlreadyMember
        },
    }
}

/// The store after leaving the list named `name`.
pub open spec fn leave_effect(v: DbView, guild_id: u64, name: Seq<char>, member_id: u64, as_admin: bool) -> DbView {
    match list_named(v, name, guild_id) {
        None => v,
        Some(id) => if list_of(v.lists, id).join_permission == PERMISSION::DENY && !as_admin {
            v
        } else {
            v.with_memberships(v.memberships.filter(membership_kept(Some(member_id), id)))
        },
    }
}

pub open spec fn action_decision(v: DbView, guild_id: u64, name: Seq<char>, member_id: u64, admin: bool, action: MemberAction) -> JoinResult {
    if is_adding(action) {
        join_decision(v, guild_id, name, member_id, acts_as_admin(action, admin))
    } else {
        leave_decision(v, guild_id, name, member_id, acts_as_admin(action, admin))
    }
}

pub open spec fn action_effect(v: DbView, guild_id: u64, name: Seq<char>, member_id: u64, admin: bool, action: MemberAction) -> DbView {
    if is_adding(action) {
        join_effect(v, guild_id, name, member_id, acts_as_admin(action, admin))
    } else {
        leave_effect(v, guild_id, name, member_id, acts_as_admin(action, admin))
    }
}

/// The line reporting one list's outcome.
pub open spec fn member_line(action: MemberAction, r: JoinResult, name: Seq<char>) -> Seq<char> {
    match action {
        MemberAction::Join => match r {
            JoinResult::AlreadyMember => "\nYou already joined the list "@ + name,
            JoinResult::Succes => "\nAdded to list "@ + name,
            JoinResult::ListDoesNotExist => "\nThe list "@ + name + " does not exist"@,
            JoinResult::MissingPerms => "\nYou do not have permission to join the list "@ + name + "."@,
            JoinResult::BotError => "\nSomething went wrong trying to join the \""@ + name + "\" list."@,
        },
        MemberAction::Leave => match r {
            JoinResult::Succes => "\nRemoved from list "@ + name,
            JoinResult::AlreadyMember => "\nYou were not in the list "@ + name,
            JoinResult::ListDoesNotExist => "\nThe list "@ + name + " does not exist"@,
            JoinResult::MissingPerms => "\nYou do not have permission to leave the list "@ + name,
            JoinResult::BotError => "\nFailed to remove member from list "@ + name,
        },
        MemberAction::Add => match r {
            JoinResult::AlreadyMember => "\nUser was already in list "@ + name,
            JoinResult::Succes => "\nAdded to list "@ + name,
            JoinResult::ListDoesNotExist => "\nList "@ + name + " does not exist"@,
            JoinResult::MissingPerms => "\nYou do not have permission to add user to list "@ + name + "."@,
            JoinResult::BotError => "\nAn error occured adding user to list "@ + name,
        },
        MemberAction::Kick => match r {
            JoinResult::Succes => "\nRemoved from list "@ + name,
            JoinResult::AlreadyMember => "\nThis person was not in the list "@ + name,
            JoinResult::ListDoesNotExist => "\nThe list "@ + name + " does not exist"@,
            JoinResult::MissingPerms => "\nYou do not have permission to remove users from the list "@ + name,
            JoinResult::BotError => "\nFailed to remove member from list "@ + name,
        },
    }
}

/// The first line of the reply; `option_count` counts every option given,
/// the user option of adding and kicking included.
pub open spec fn member_header(action: MemberAction, member_id: u64, option_count: nat) -> Seq<char> {
    match action {
        MemberAction::Join => "Joining the following "@ + dec(option_count) + " lists:"@,
        MemberAction::Leave => "Leaving the following "@ + dec(option_count) + " lists:"@,
        MemberAction::Add => "Attempting to add user with id "@ + dec(member_id as nat) + " to "@
            + dec((option_count - 1) as nat) + " lists:"@,
        MemberAction::Kick => "Attempting to remove user with id "@ + dec(member_id as nat) + " from "@
            + dec((option_count - 1) as nat) + " lists:"@,
    }
}

/// The store and the report lines after handling the names in order.
pub open spec fn member_run(v: DbView, guild_id: u64, member_id: u64, admin: bool, action: MemberAction, names: Seq<Seq<char>>) -> (DbView, Seq<char>)
    decreases names.len(),
{
    if names.len() == 0 {
        (v, Seq::empty())
    } else {
        let (v1, t1) = member_run(v, guild_id, member_id, admin, action, names.drop_last());
        let name = names.last();
        (
            action_effect(v1, guild_id, name, member_id, admin, action),
            t1 + member_line(action, action_decision(v1, guild_id, name, member_id, admin, action), name),
        )
    }
}

/// The reply to a command a caller without moderator rights may not use.
pub open spec fn not_allowed_text() -> Seq<char> {
    "You do not have permission to use this command."@
}

pub fn not_allowed() -> (res: Reply)
    ensures
        res@ == (not_allowed_text(), true),
{
    Reply { text: String::from_str("You do not have permission to use this command."), ephemeral: true }
}

fn push_line(text: &mut String, action: MemberAction, r: JoinResult, name: &str)
    ensures
        final(text)@ == old(text)@ + member_line(action, r, name@),
{
    let ghost t0 = text@;
    match action {
        MemberAction::Join => match r {
            JoinResult::AlreadyMember => { text.append("\nYou already joined the list "); text.append(name); },
            JoinResult::Succes => { text.append("\nAdded to list "); text.append(name); },
            JoinResult::ListDoesNotExist => { text.append("\nThe list "); text.append(name); text.append(" does not exist"); },
            JoinResult::MissingPerms => { text.append("\nYou do not have permission to join the list "); text.append(name); text.append("."); },
            JoinResult::BotError => { text.append("\nSomething went wrong trying to join the \""); text.append(name); text.append("\" list."); },
        },
        MemberAction::Leave => match r {
            JoinResult::Succes => { text.append("\nRemoved from list "); text.append(name); },
            JoinResult::AlreadyMember => { text.append("\nYou were not in the list "); text.append(name); },
            JoinResult::ListDoesNotExist => { text.append("\nThe list "); text.append(name); text.append(" does not exist"); },
            JoinResult::MissingPerms => { text.append("\nYou do not have permission to leave the list "); text.append(name); },
            JoinResult::BotError => { text.append("\nFailed to remove member from list "); text.append(name); },
        },
        MemberAction::Add => match r {
            JoinResult::AlreadyMember => { text.append("\nUser was already in list "); text.append(name); },
            JoinResult::Succes => { text.append("\nAdded to list "); text.append(name); },
            JoinResult::ListDoesNotExist => { text.append("\nList "); text.append(name); text.append(" does not exist"); },
            JoinResult::MissingPerms => { text.append("\nYou do not have permission to add user to list "); text.append(name); text.append("."); },
            JoinResult::BotError => { text.append("\nAn error occured adding user to list "); text.append(name); },
        },
        MemberAction::Kick => match r {
            JoinResult::Succes => { text.append("\nRemoved from list "); text.append(name); },
            JoinResult::AlreadyMember => { text.append("\nThis person was not in the list "); text.append(name); },
            JoinResult::ListDoesNotExist => { text.append("\nThe list "); text.append(name); text.append(" does not exist"); },
            JoinResult::MissingPerms => { text.append("\nYou do not have permission to remove users from the list "); text.append(name); },
            JoinResult::BotError => { text.append("\nFailed to remove member from list "); text.append(name); },
        },
    }
    assert(text@ =~= t0 + member_line(action, r, name@));
}

/// Joins the list of the guild named `list_name`, unless its joining is denied
/// to a caller without moderator rights.
pub fn join_list(db: &mut Database, guild_id: u64, list_name: &str, member_id: u64, as_admin: bool) -> (res: JoinResult)
    requires
        old(db)@.wf(),
        sql_int(guild_id),
        sql_int(member_id),
    ensures
        final(db)@.wf(),
        res == join_decision(old(db)@, guild_id, list_name@, member_id, as_admin),
        final(db)@ == join_effect(old(db)@, guild_id, list_name@, member_id, as_admin),
{
    let ghost v = db@;
    match db.get_list_id_by_name(list_name, guild_id) {
        Some(list_id) => {
            proof {
                lemma_list_named_some(v, list_name@, guild_id);
                let i = choose|i: int| crate::db_lists::named_in_guild(v, list_name@, guild_id, i) && v.lists[i].id == list_id;
                assert(crate::database::list_row_ok(v.lists[i]));
            }
            let (_, list_join_permission, _) = db.get_list_permissions(list_id);
            if list_join_permission == PERMISSION::DENY && !as_admin {
                return JoinResult::MissingPerms;
            }
            db.add_member(member_id, list_id)
        },
        None => JoinResult::ListDoesNotExist,
    }
}

/// Leaves the list of the guild named `list_name`, unless its joining is
/// denied to a caller without moderator rights. `AlreadyMember` reports that
/// the user was not in the list.
pub fn leave_list(db: &mut Database, guild_id: u64, list_name: &str, member_id: u64, as_admin: bool) -> (res: JoinResult)
    requires
        old(db)@.wf(),
        sql_int(guild_id),
        sql_int(member_id),
    ensures
        final(db)@.wf(),
        res == leave_decision(old(db)@, guild_id, list_name@, member_id, as_admin),
        final(db)@ == leave_effect(old(db)@, guild_id, list_name@, member_id, as_admin),
{
    let ghost v = db@;
    match db.get_list_id_by_name(list_name, guild_id) {
        Some(list_id) => {
            proof {
                lemma_list_named_some(v, list_name@, guild_id);
                let i = choose|i: int| crate::db_lists::named_in_guild(v, list_name@, guild_id, i) && v.lists[i].id == list_id;
                assert(crate::database::list_row_ok(v.lists[i]));
            }
            let (_, list_join_permission, _) = db.get_list_permissions(list_id);
            if list_join_permission == PERMISSION::DENY && !as_admin {
                return JoinResult::MissingPerms;
            }
            match db.remove_member(member_id, list_id) {
                Ok(true) => JoinResult::Succes,
                _ => JoinResult::AlreadyMember,
            }
        },
        None => JoinResult::ListDoesNotExist,
    }
}

fn member_lists(
    db: &mut Database,
    guild_id: u64,
    member_id: u64,
    admin: bool,
    action: MemberAction,
    option_count: usize,
    names: &Vec<String>,
) -> (res: Reply)
    requires
        old(db)@.wf(),
        sql_int(guild_id),
        sql_int(member_id),
        action == MemberAction::Add || action == MemberAction::Kick ==> option_count >= 1,
    ensures
        final(db)@.wf(),
        final(db)@ == member_run(old(db)@, guild_id, member_id, admin, action, strings_view(names@)).0,
        res@.0 == member_header(action, member_id, option_count as nat)
            + member_run(old(db)@, guild_id, member_id, admin, action, strings_view(names@)).1,
        res@.1 == (action == MemberAction::Join || action == MemberAction::Leave),
{
    let ghost v0 = db@;
    let ghost ns = strings_view(names@);
    let mut text = String::new();
    match action {
        MemberAction::Join => {
            text.append("Joining the following ");
            push_dec(&mut text, option_count as u128);
            text.append(" lists:");
        },
        MemberAction::Leave => {
            text.append("Leaving the following ");
            push_dec(&mut text, option_count as u128);
            text.append(" lists:");
        },
        MemberAction::Add => {
            text.append("Attempting to add user with id ");
            push_dec(&mut text, member_id as u128);
            text.append(" to ");
            push_dec(&mut text, (option_count - 1) as u128);
            text.append(" lists:");
        },
        MemberAction::Kick => {
            text.append("Attempting to remove user with id ");
            push_dec(&mut text, member_id as u128);
            text.append(" from ");
            push_dec(&mut text, (option_count - 1) as u128);
            text.append(" lists:");
        },
    }
    let ghost header = text@;
    assert(header =~= member_header(action, member_id, option_count as nat));
    let as_admin = match action {
        MemberAction::Add | MemberAction::Kick => true,
        _ => admin,
    };
    let mut i: usize = 0;
    assert(ns.take(0) =~= Seq::<Seq<char>>::empty());
    while i < names.len()
        invariant
            i <= names.len(),
            ns == strings_view(names@),
            sql_int(guild_id),
            sql_int(member_id),
            as_admin == acts_as_admin(action, admin),
            db@.wf(),
            db@ == member_run(v0, guild_id, member_id, admin, action, ns.take(i as int)).0,
            text@ == header + member_run(v0, guild_id, member_id, admin, action, ns.take(i as int)).1,
        decreases names.len() - i,
    {
        proof {
            assert(ns.take(i + 1).drop_last() =~= ns.take(i as int));
            assert(ns.take(i + 1).last() == names@[i as int]@);
        }
        let name = names[i].as_str();
        let r = match action {
            MemberAction::Join | MemberAction::Add => join_list(db, guild_id, name, member_id, as_admin),
            MemberAction::Leave | MemberAction::Kick => leave_list(db, guild_id, name, member_id, as_admin),
        };
        let ghost t = text@;
        push_line(&mut text, action, r, name);
        proof {
            assert(text@ =~= header + member_run(v0, guild_id, member_id, admin, action, ns.take(i + 1)).1);
        }
        i += 1;
    }
    proof {
        assert(ns.take(names.len() as int) =~= ns);
    }
    Reply { text, ephemeral: action == MemberAction::Join || action == MemberAction::Leave }
}

/// `/join`: joins each named list and reports every outcome to the caller.
pub fn join_reply(db: &mut Database, guild_id: u64, member_id: u64, member_admin: bool, option_count: usize, names: &Vec<String>) -> (res: Reply)
    requires
        old(db)@.wf(),
        sql_int(guild_id),
        sql_int(member_id),
    ensures
        final(db)@.wf(),
        final(db)@ == member_run(old(db)@, guild_id, member_id, member_admin, MemberAction::Join, strings_view(names@)).0,
        res@ == (member_header(MemberAction::Join, member_id, option_count as nat)
            + member_run(old(db)@, guild_id, member_id, member_admin, MemberAction::Join, strings_view(names@)).1, true),
{
    member_lists(db, guild_id, member_id, member_admin, MemberAction::Join, option_count, names)
}

/// `/leave`: leaves each named list and reports every outcome to the caller.
pub fn leave_reply(db: &mut Database, guild_id: u64, member_id: u64, member_admin: bool, option_count: usize, names: &Vec<String>) -> (res: Reply)
    requires
        old(db)@.wf(),
        sql_int(guild_id),
        sql_int(member_id),
    ensures
        final(db)@.wf(),
        final(db)@ == member_run(old(db)@, guild_id, member_id, member_admin, MemberAction::Leave, strings_view(names@)).0,
        res@ == (member_header(MemberAction::Leave, member_id, option_count as nat)
            + member_run(old(db)@, guild_id, member_id, member_admin, MemberAction::Leave, strings_view(names@)).1, true),
{
    member_lists(db, guild_id, member_id, member_admin, MemberAction::Leave, option_count, names)
}

/// `/add`: a moderator adds a user to each named list.
pub fn add_reply(
    db: &mut Database,
    guild_id: u64,
    caller_admin: bool,
    member_id: Option<u64>,
    option_count: usize,
    names: &Vec<String>,
) -> (res: Reply)
    requires
        old(db)@.wf(),
        sql_int(guild_id),
        member_id matches Some(m) ==> sql_int(m),
        member_id is Some ==> option_count >= 1,
    ensures
        final(db)@.wf(),
        !caller_admin ==> res@ == (not_allowed_text(), true) && final(db)@ == old(db)@,
        caller_admin && member_id is None ==> res@ == ("Missing user parameter."@, true) && final(db)@ == old(db)@,
        caller_admin && member_id is Some ==> ({
            let m = member_id->Some_0;
            let run = member_run(old(db)@, guild_id, m, true, MemberAction::Add, strings_view(names@));
            &&& final(db)@ == run.0
            &&& res@ == (member_header(MemberAction::Add, m, option_count as nat) + run.1, false)
        }),
{
    if !caller_admin {
        return not_allowed();
    }
    match member_id {
        None => Reply { text: String::from_str("Missing user parameter."), ephemeral: true },
        Some(m) => member_lists(db, guild_id, m, true, MemberAction::Add, option_count, names),
    }
}

/// `/kick`: a moderator removes a user from each named list.
pub fn kick_reply(
    db: &mut Database,
    guild_id: u64,
    caller_admin: bool,
    member_id: Option<u64>,
    option_count: usize,
    names: &Vec<String>,
) -> (res: Reply)
    requires
        old(db)@.wf(),
        sql_int(guild_id),
        caller_admin ==> member_id is Some,
        member_id matches Some(m) ==> sql_int(m),
        member_id is Some ==> option_count >= 1,
    ensures
        final(db)@.wf(),
        !caller_admin ==> res@ == (not_allowed_text(), true) && final(db)@ == old(db)@,
        caller_admin ==> ({
            let m = member_id->Some_0;
            let run = member_run(old(db)@, guild_id, m, true, MemberAction::Kick, strings_view(names@));
            &&& final(db)@ == run.0
            &&& res@ == (member_header(MemberAction::Kick, m, option_count as nat) + run.1, false)
        }),
{
    if !caller_admin {
        return not_allowed();
    }
    let m = member_id.unwrap();
    member_lists(db, guild_id, m, true, MemberAction::Kick, option_count, names)
}

} // verus!
