use vstd::prelude::*;

use crate::database::{Database, sql_int};
use crate::db_lists::{joinable_hit, membership_hit, ping_hit, strings_view, window};

verus! {

/// How many names an autocompletion offers.
pub const SUGGESTIONS: usize = 5;

/// Completions for a list name (`/ping`, `/configure list`): the first names
/// matching the filter, of pingable lists, or of all lists for a moderator.
pub fn list_suggestions(db: &mut Database, guild_id: u64, filter: &str, member_admin: bool) -> (res: Vec<String>)
    requires
        old(db)@.wf(),
        sql_int(guild_id),
    ensures
        final(db)@ == old(db)@,
        strings_view(res@) == window(
            old(db)@.aliases.filter_map(ping_hit(old(db)@.lists, guild_id, filter@, member_admin)),
            0,
            SUGGESTIONS as int,
        ),
{
    db.get_list_aliases_by_search(guild_id, 0, SUGGESTIONS, filter, member_admin)
}

/// Completions for `/alias`: only a moderator gets any, and then of every
/// list.
pub fn alias_suggestions(db: &mut Database, guild_id: u64, filter: &str, member_admin: bool) -> (res: Vec<String>)
    requires
        old(db)@.wf(),
        sql_int(guild_id),
    ensures
        final(db)@ == old(db)@,
        !member_admin ==> res@.len() == 0,
        member_admin ==> strings_view(res@) == window(
            old(db)@.aliases.filter_map(ping_hit(old(db)@.lists, guild_id, filter@, true)),
            0,
            SUGGESTIONS as int,
        ),
{
    if !member_admin {
        return Vec::new();
    }
    db.get_list_aliases_by_search(guild_id, 0, SUGGESTIONS, filter, true)
}

/// Completions for `/join`: names of lists the user is not in yet, joinable
/// ones or, for a moderator, any.
pub fn join_suggestions(db: &mut Database, guild_id: u64, user_id: u64, filter: &str, member_admin: bool) -> (res: Vec<String>)
    requires
        old(db)@.wf(),
        sql_int(guild_id),
        sql_int(user_id),
    ensures
        final(db)@ == old(db)@,
        strings_view(res@) == window(
            old(db)@.aliases.filter_map(joinable_hit(old(db)@, guild_id, user_id, filter@, member_admin)),
            0,
            SUGGESTIONS as int,
        ),
{
    db.get_list_joinable_by_search(guild_id, user_id, SUGGESTIONS, filter, member_admin)
}

/// Completions for `/leave`: names of the user's lists, pingable ones or, for
/// a moderator, all.
pub fn leave_suggestions(db: &mut Database, guild_id: u64, user_id: u64, filter: &str, member_admin: bool) -> (res: Vec<String>)
    requires
        old(db)@.wf(),
        sql_int(guild_id),
        sql_int(user_id),
    ensures
        final(db)@ == old(db)@,
        strings_view(res@) == window(
            old(db)@.aliases.filter_map(membership_hit(old(db)@, guild_id, user_id, filter@, member_admin)),
            0,
            SUGGESTIONS as int,
        ),
{
    db.get_list_membership_by_search(guild_id, user_id, SUGGESTIONS, filter, member_admin)
}

} // verus!
