use vstd::prelude::*;
use vstd::string::*;

use crate::database::{Database, DbView, I64_MAX, ListV, has_guild_row, sql_int};
use crate::database::AliasV;
use crate::db_lists::{
    alias_kept, counted_list, has_alias, insert_alias, joinable_hit, lemma_list_named_some,
    list_kept, list_named, list_of, list_of_member, list_room, membership_hit, membership_kept,
    name_of_list, named_in_guild, next_list_id, new_list, ping_hit, proposal_kept, search_hit,
    strings_view, window,
};
use crate::membership::{not_allowed, not_allowed_text};
use crate::structures::{PingList, Reply};
use crate::text::{dec, join_seq, join_strings, push_dec, str_eq};

verus! {

/// The store after `add_list`.
pub open spec fn added_list(v: DbView, guild_id: u64, name: Seq<char>) -> DbView {
    v.with_lists(v.lists.push(new_list(next_list_id(v.lists), guild_id))).with_aliases(
        insert_alias(v.aliases, AliasV { list_id: next_list_id(v.lists), name }),
    )
}

/// The store after `remove_list` of an existing key.
pub open spec fn removed_list(v: DbView, list_id: u64) -> DbView {
    v.with_aliases(v.aliases.filter(alias_kept(list_id, None))).with_memberships(
        v.memberships.filter(membership_kept(None, list_id)),
    ).with_proposals(v.proposals.filter(proposal_kept(list_id))).with_lists(v.lists.filter(list_kept(list_id)))
}

/// A list found by name has a key the store accepts.
proof fn lemma_named_key(v: DbView, name: Seq<char>, guild_id: u64)
    requires
        v.wf(),
        list_named(v, name, guild_id) is Some,
    ensures
        sql_int(list_named(v, name, guild_id)->Some_0),
        crate::database::has_list_row(v.lists, list_named(v, name, guild_id)->Some_0),
{
    lemma_list_named_some(v, name, guild_id);
    let i = choose|i: int| named_in_guild(v, name, guild_id, i) && v.lists[i].id == list_named(v, name, guild_id)->Some_0;
    assert(crate::database::list_row_ok(v.lists[i]));
}

/// `/create`: a moderator creates a list under a first name.
pub fn create_reply(db: &mut Database, guild_id: u64, list_name: &str, as_admin: bool) -> (res: Reply)
    requires
        old(db)@.wf(),
        sql_int(guild_id),
        as_admin ==> has_guild_row(old(db)@.guilds, guild_id) && list_room(old(db)@.lists),
    ensures
        final(db)@.wf(),
        !as_admin ==> res@ == (not_allowed_text(), true) && final(db)@ == old(db)@,
        as_admin ==> res@ == ("Creating list "@ + list_name@ + "."@, false)
            && final(db)@ == added_list(old(db)@, guild_id, list_name@),
{
    if !as_admin {
        return not_allowed();
    }
    let mut content = String::new();
    match db.add_list(guild_id, list_name) {
        Some(_) => {
            content.append("Creating list ");
            content.append(list_name);
            content.append(".");
        },
        None => {
            content.append("This list already exists.");
        },
    }
    Reply { text: content, ephemeral: false }
}

/// `/remove`: a moderator deletes the list with a name.
pub fn remove_reply(db: &mut Database, guild_id: u64, list_name: &str, as_admin: bool) -> (res: Reply)
    requires
        old(db)@.wf(),
        sql_int(guild_id),
    ensures
        final(db)@.wf(),
        !as_admin ==> res@ == (not_allowed_text(), true) && final(db)@ == old(db)@,
        as_admin && list_named(old(db)@, list_name@, guild_id) is Some ==> res@ == ("Removed list."@, false)
            && final(db)@ == removed_list(old(db)@, list_named(old(db)@, list_name@, guild_id)->Some_0),
        as_admin && list_named(old(db)@, list_name@, guild_id) is None ==> res@ == (
            "Removing list "@ + list_name@ + "."@ + "List does not exist."@,
            false,
        ) && final(db)@ == old(db)@,
{
    if !as_admin {
        return not_allowed();
    }
    let ghost v = db@;
    match db.get_list_id_by_name(list_name, guild_id) {
        Some(id) => {
            proof {
                lemma_named_key(v, list_name@, guild_id);
            }
            let _ = db.remove_list(id);
            Reply { text: String::from_str("Removed list."), ephemeral: false }
        },
        None => {
            let mut content = String::new();
            content.append("Removing list ");
            content.append(list_name);
            content.append(".");
            content.append("List does not exist.");
            Reply { text: content, ephemeral: false }
        },
    }
}

/// `/alias`: a moderator gives the list named `list_name` another name.
pub fn alias_reply(db: &mut Database, guild_id: u64, list_name: &str, list_alias: &str, as_admin: bool) -> (res: Reply)
    requires
        old(db)@.wf(),
        sql_int(guild_id),
    ensures
        final(db)@.wf(),
        !as_admin ==> res@ == (not_allowed_text(), true) && final(db)@ == old(db)@,
        as_admin && list_named(old(db)@, list_name@, guild_id) is Some ==> ({
            let id = list_named(old(db)@, list_name@, guild_id)->Some_0;
            &&& res@ == ("Added alias "@ + list_alias@ + " to list "@ + list_name@ + "."@, false)
            &&& final(db)@ == if has_alias(old(db)@.aliases, id, list_alias@) {
                old(db)@
            } else {
                old(db)@.with_aliases(insert_alias(old(db)@.aliases, AliasV { list_id: id, name: list_alias@ }))
            }
        }),
        as_admin && list_named(old(db)@, list_name@, guild_id) is None ==> res@ == (
            "There is no list named "@ + list_alias@ + " to alias to."@,
            false,
        ) && final(db)@ == old(db)@,
{
    if !as_admin {
        return not_allowed();
    }
    let ghost v = db@;
    let mut content = String::new();
    match db.get_list_id_by_name(list_name, guild_id) {
        Some(id) => {
            proof {
                lemma_named_key(v, list_name@, guild_id);
            }
            db.add_alias_inline(id, list_alias);
            content.append("Added alias ");
            content.append(list_alias);
            content.append(" to list ");
            content.append(list_name);
            content.append(".");
        },
        None => {
            content.append("There is no list named ");
            content.append(list_alias);
            content.append(" to alias to.");
        },
    }
    Reply { text: content, ephemeral: false }
}

/// `/remove_alias`: a moderator removes one name of a list, unless it is the
/// list's last name.
pub fn remove_alias_reply(db: &mut Database, guild_id: u64, list_name: &str, as_admin: bool) -> (res: Reply)
    requires
        old(db)@.wf(),
        sql_int(guild_id),
    ensures
        final(db)@.wf(),
        !as_admin ==> res@ == (not_allowed_text(), true) && final(db)@ == old(db)@,
        as_admin && list_named(old(db)@, list_name@, guild_id) is Some ==> ({
            let id = list_named(old(db)@, list_name@, guild_id)->Some_0;
            if old(db)@.aliases.filter_map(name_of_list(id)).len() > 1 {
                &&& res@ == ("Removed alias "@ + list_name@ + "."@, false)
                &&& final(db)@ == old(db)@.with_aliases(old(db)@.aliases.filter(alias_kept(id, Some(list_name@))))
            } else {
                &&& res@ == ("You cannot remove the last alias of a list."@, false)
                &&& final(db)@ == old(db)@
            }
        }),
        as_admin && list_named(old(db)@, list_name@, guild_id) is None ==> res@ == (
            "There is no list named "@ + list_name@ + " to alias to."@,
            false,
        ) && final(db)@ == old(db)@,
{
    if !as_admin {
        return not_allowed();
    }
    let ghost v = db@;
    let mut content = String::new();
    match db.get_list_id_by_name(list_name, guild_id) {
        Some(id) => {
            proof {
                lemma_named_key(v, list_name@, guild_id);
            }
            let names = db.get_list_names(id);
            if names.len() > 1 {
                let _ = db.remove_alias(id, list_name);
                content.append("Removed alias ");
                content.append(list_name);
                content.append(".");
            } else {
                content.append("You cannot remove the last alias of a list.");
            }
        },
        None => {
            content.append("There is no list named ");
            content.append(list_name);
            content.append(" to alias to.");
        },
    }
    Reply { text: content, ephemeral: false }
}

/// One line per list: `\n` and the list's names joined with `, `.
pub open spec fn get_lines(v: DbView, ids: Seq<u64>) -> Seq<char>
    decreases ids.len(),
{
    if ids.len() == 0 {
        Seq::empty()
    } else {
        get_lines(v, ids.drop_last()) + "\n"@ + join_seq(v.aliases.filter_map(name_of_list(ids.last())), ", "@)
    }
}

/// `/get`: the lists of the guild the caller is in, one line each.
pub fn get_reply(db: &mut Database, guild_id: u64, member_id: u64) -> (res: Reply)
    requires
        old(db)@.wf(),
        sql_int(guild_id),
        sql_int(member_id),
    ensures
        final(db)@ == old(db)@,
        res@ == (
            "You are in the following lists:"@ + get_lines(
                old(db)@,
                old(db)@.memberships.filter_map(list_of_member(old(db)@.lists, guild_id, member_id)),
            ),
            true,
        ),
{
    let ghost v = db@;
    let mut content = String::from_str("You are in the following lists:");
    let list_ids = match db.get_lists_with_member(guild_id, member_id) {
        Ok(ids) => ids,
        Err(_) => Vec::new(),
    };
    let ghost ids = list_ids@;
    let mut i: usize = 0;
    while i < list_ids.len()
        invariant
            db@ == v,
            v.wf(),
            ids == list_ids@,
            ids == v.memberships.filter_map(list_of_member(v.lists, guild_id, member_id)),
            i <= list_ids.len(),
            content@ == "You are in the following lists:"@ + get_lines(v, ids.take(i as int)),
        decreases list_ids.len() - i,
    {
        proof {
            assert(ids.take(i + 1).drop_last() =~= ids.take(i as int));
            v.memberships.lemma_filter_map_contains(list_of_member(v.lists, guild_id, member_id), ids[i as int]);
            let t = choose|t: crate::database::MembershipRow| #[trigger] v.memberships.contains(t)
                && list_of_member(v.lists, guild_id, member_id)(t) == Some(ids[i as int]);
            let j = choose|j: int| 0 <= j < v.memberships.len() && v.memberships[j] == t;
            assert(crate::database::has_list_row(v.lists, v.memberships[j].list_id));
            let k = choose|k: int| 0 <= k < v.lists.len() && #[trigger] v.lists[k].id == v.memberships[j].list_id;
            assert(crate::database::list_row_ok(v.lists[k]));
        }
        let names = db.get_list_names(list_ids[i]);
        let joined = join_strings(&names, ", ");
        content.append("\n");
        content.append(joined.as_str());
        proof {
            assert(content@ =~= "You are in the following lists:"@ + get_lines(v, ids.take(i + 1)));
        }
        i += 1;
    }
    proof {
        assert(ids.take(list_ids.len() as int) =~= ids);
    }
    Reply { text: content, ephemeral: true }
}

// ---------------------------------------------------------------------------
// `/list`: one page of the guild's lists
// ---------------------------------------------------------------------------

/// One page of the list overview: an embed (colour, title, description) and,
/// when the page exists, a menu (its id and the page labels) to move between
/// pages.
pub struct ListPage {
    pub color: (u8, u8, u8),
    pub title: String,
    pub description: Option<String>,
    pub menu: Option<(String, Vec<String>)>,
}

pub struct ListPageV {
    pub color: (u8, u8, u8),
    pub title: Seq<char>,
    pub description: Option<Seq<char>>,
    pub menu: Option<(Seq<char>, Seq<Seq<char>>)>,
}

impl View for ListPage {
    type V = ListPageV;

    open spec fn view(&self) -> ListPageV {
        ListPageV {
            color: self.color,
            title: self.title@,
            description: match self.description {
                Some(d) => Some(d@),
                None => None,
            },
            menu: match self.menu {
                Some((id, labels)) => Some((id@, strings_view(labels@))),
                None => None,
            },
        }
    }
}

/// How many visible lists of the guild have a name matching the filter.
pub open spec fn list_count(v: DbView, guild_id: u64, filter: Seq<char>) -> nat {
    if sql_int(guild_id) {
        v.lists.filter(counted_list(v.aliases, guild_id, filter, false)).len()
    } else {
        0
    }
}

/// One entry per matching name of a visible list, in name order.
pub open spec fn list_hits(v: DbView, guild_id: u64, filter: Seq<char>) -> Seq<ListV> {
    v.aliases.filter_map(search_hit(v.lists, guild_id, filter, false))
}

pub open spec fn min_int(a: int, b: int) -> int {
    if a <= b {
        a
    } else {
        b
    }
}

/// The index the page `i` stops before (pages hold twenty entries, and each
/// page leaves out its last one).
pub open spec fn page_end(i: int, max: int) -> int {
    min_int(max, (i + 1) * 20 - 1)
}

pub open spec fn page_label(i: int, max: int) -> Seq<char> {
    dec((20 * i + 1) as nat) + ":"@ + dec((page_end(i, max) + 1) as nat)
}

pub open spec fn page_count(max: int) -> int {
    1 + (max - 1) / 20
}

pub open spec fn page_labels(max: int) -> Seq<Seq<char>> {
    Seq::new(page_count(max) as nat, |i: int| page_label(i, max))
}

/// An entry: `- ` and the list's names, and its description on a second
/// line when it has one.
pub open spec fn page_entry(v: DbView, l: ListV) -> Seq<char> {
    let names = join_seq(v.aliases.filter_map(name_of_list(l.id)), ", "@);
    if l.description.len() == 0 {
        "- "@ + names
    } else {
        "- "@ + names + "\n    "@ + l.description
    }
}

pub open spec fn page_entries(v: DbView, hits: Seq<ListV>, start: int, end: int) -> Seq<Seq<char>> {
    Seq::new((end - start) as nat, |k: int| page_entry(v, hits[start + k]))
}

/// The menu remembers the filter; `|` stands for no filter.
pub open spec fn menu_id(filter: Seq<char>) -> Seq<char> {
    if filter.len() == 0 {
        "|"@
    } else {
        filter
    }
}

/// The page that `/list` shows.
pub open spec fn list_page(v: DbView, guild_id: u64, page: int, filter: Seq<char>) -> ListPageV {
    let max = list_count(v, guild_id, filter) as int;
    if max == 0 {
        ListPageV { color: (255, 0, 0), title: "No lists found."@, description: None, menu: None }
    } else if page < 0 || 20 * page >= max {
        ListPageV {
            color: (255, 127, 28),
            title: "List page out of range."@,
            description: None,
            menu: Some((menu_id(filter), if page >= 0 { page_labels(max) } else { Seq::empty() })),
        }
    } else {
        let start = 20 * page;
        let end = page_end(page, max);
        ListPageV {
            color: (127, 255, 160),
            title: "Showing lists "@ + dec((start + 1) as nat) + "-"@ + dec(end as nat) + " out of "@ + dec(max as nat) + ":"@,
            description: Some(join_seq(page_entries(v, list_hits(v, guild_id, filter), start, end), "\n"@)),
            menu: Some((menu_id(filter), page_labels(max))),
        }
    }
}

pub proof fn lemma_filter_map_has<A, B>(s: Seq<A>, f: spec_fn(A) -> Option<B>, q: int)
    requires
        0 <= q < s.len(),
        f(s[q]) is Some,
    ensures
        s.filter_map(f).contains(f(s[q])->Some_0),
    decreases s.len(),
{
    let d = s.drop_last();
    if q == s.len() - 1 {
        assert(s.filter_map(f) == d.filter_map(f) + seq![f(s[q])->Some_0]);
        assert(s.filter_map(f)[d.filter_map(f).len() as int] == f(s[q])->Some_0);
    } else {
        assert(d[q] == s[q]);
        lemma_filter_map_has(d, f, q);
        let k = choose|k: int| 0 <= k < d.filter_map(f).len() && d.filter_map(f)[k] == f(s[q])->Some_0;
        match f(s.last()) {
            Some(b) => {
                assert(s.filter_map(f) == d.filter_map(f) + seq![b]);
                assert(s.filter_map(f)[k] == f(s[q])->Some_0);
            },
            None => {
                assert(s.filter_map(f) == d.filter_map(f));
            },
        }
    }
}

/// Counting lists never finds more than there are matching names.
pub proof fn lemma_count_le_hits(v: DbView, guild_id: u64, filter: Seq<char>)
    requires
        v.wf(),
    ensures
        list_count(v, guild_id, filter) <= list_hits(v, guild_id, filter).len(),
{
    broadcast use vstd::seq_lib::seq_to_set_is_finite;

    let p = counted_list(v.aliases, guild_id, filter, false);
    let c = v.lists.filter(p);
    let h = list_hits(v, guild_id, filter);
    crate::db_lists::lemma_filter_lists_increasing(v.lists, p);
    assert(c.no_duplicates()) by {
        assert forall|i: int, j: int| 0 <= i < c.len() && 0 <= j < c.len() && i != j implies c[i] != c[j] by {
            if i < j {
                assert(crate::database::list_keys(c)[i] < crate::database::list_keys(c)[j]);
            } else {
                assert(crate::database::list_keys(c)[j] < crate::database::list_keys(c)[i]);
            }
        }
    }
    c.unique_seq_to_set();
    assert(c.to_set().subset_of(h.to_set())) by {
        assert forall|x: ListV| c.to_set().contains(x) implies h.to_set().contains(x) by {
            let k = choose|k: int| 0 <= k < c.len() && c[k] == x;
            crate::db_lists::lemma_filter_keeps(v.lists, p, k);
            let j = choose|j: int| 0 <= j < v.lists.len() && v.lists[j] == c[k];
            let q = choose|q: int| 0 <= q < v.aliases.len() && (#[trigger] v.aliases[q]).list_id == x.id
                && crate::text::like_filter(v.aliases[q].name, filter);
            crate::db_lists::lemma_list_of(v.lists, x.id, j);
            assert(crate::database::has_list_row(v.lists, x.id));
            lemma_filter_map_has(v.aliases, search_hit(v.lists, guild_id, filter, false), q);
        }
    }
    vstd::set_lib::lemma_len_subset(c.to_set(), h.to_set());
    h.lemma_cardinality_of_set();
}

fn push_entry(s: &mut String, names: &String, description: &String)
    ensures
        final(s)@ == old(s)@ + (if description@.len() == 0 {
            "- "@ + names@
        } else {
            "- "@ + names@ + "\n    "@ + description@
        }),
{
    let ghost s0 = s@;
    s.append("- ");
    s.append(names.as_str());
    if description.as_str().unicode_len() != 0 {
        s.append("\n    ");
        s.append(description.as_str());
    }
    assert(s@ =~= s0 + (if description@.len() == 0 {
        "- "@ + names@
    } else {
        "- "@ + names@ + "\n    "@ + description@
    }));
}

/// `/list` and its page menu: one page (twenty entries) of the guild's visible
/// lists matching the filter.
pub fn compose_list(db: &mut Database, guild_id: u64, page: i64, filter: &str) -> (res: ListPage)
    requires
        old(db)@.wf(),
    ensures
        final(db)@ == old(db)@,
        res@ == list_page(old(db)@, guild_id, page as int, filter@),
{
    let ghost v = db@;
    let maxlists = db.count_lists_by_search(guild_id, filter, false);
    if maxlists == 0 {
        return ListPage {
            color: (255, 0, 0),
            title: String::from_str("No lists found."),
            description: None,
            menu: None,
        };
    }
    proof {
        lemma_count_le_hits(v, guild_id, filter@);
    }
    let lists = match db.get_lists_by_search(guild_id, filter, false) {
        Ok(l) => l,
        Err(_) => Vec::new(),
    };
    let ghost hits = list_hits(v, guild_id, filter@);
    assert(lists@.map_values(|p: PingList| p@) == hits);
    let mut labels: Vec<String> = Vec::new();
    let mut entries = String::new();
    let in_range = page >= 0 && (page as u128) * 20 < maxlists as u128;
    let ghost max = maxlists as int;
    if page >= 0 {
        let pages = 1 + (maxlists - 1) / 20;
        let mut page_index: usize = 0;
        while page_index < pages
            invariant
                db@ == v,
                v.wf(),
                max == maxlists as int,
                max > 0,
                page >= 0,
                max <= hits.len(),
                hits == lists@.map_values(|p: PingList| p@),
                hits == list_hits(v, guild_id, filter@),
                pages == page_count(max),
                page_index <= pages,
                in_range == (20 * page < max),
                strings_view(labels@) == page_labels(max).take(page_index as int),
                in_range && page < page_index ==> entries@ == join_seq(page_entries(v, hits, 20 * page, page_end(page as int, max)), "\n"@),
                !(in_range && page < page_index) ==> entries@.len() == 0,
            decreases pages - page_index,
        {
            let page_start = page_index * 20;
            let pend = if maxlists - page_start > 19 {
                page_start + 19
            } else {
                maxlists
            };
            let mut label = String::new();
            push_dec(&mut label, page_start as u128 + 1);
            label.append(":");
            push_dec(&mut label, pend as u128 + 1);
            let ghost before = labels@;
            labels.push(label);
            proof {
                assert(pend as int == page_end(page_index as int, max));
                assert(strings_view(labels@) =~= strings_view(before).push(page_label(page_index as int, max)));
                assert(page_labels(max).take(page_index + 1) =~= page_labels(max).take(page_index as int).push(page_label(page_index as int, max)));
            }
            if page_index as u128 == page as u128 {
                let ghost ents = page_entries(v, hits, page_start as int, pend as int);
                let mut list_index = page_start;
                while list_index < pend
                    invariant
                        db@ == v,
                        v.wf(),
                        page_start <= list_index <= pend,
                        pend <= max <= hits.len(),
                        hits == lists@.map_values(|p: PingList| p@),
                        hits == list_hits(v, guild_id, filter@),
                        ents == page_entries(v, hits, page_start as int, pend as int),
                        entries@ == join_seq(ents.take(list_index - page_start), "\n"@),
                    decreases pend - list_index,
                {
                    let l = &lists[list_index];
                    proof {
                        assert(hits[list_index as int] == l@);
                        assert(hits.contains(l@));
                        let q = list_index - page_start;
                        assert(ents.take(q + 1).drop_last() =~= ents.take(q as int));
                        assert(ents.take(q + 1).last() == page_entry(v, l@));
                        v.aliases.lemma_filter_map_contains(search_hit(v.lists, guild_id, filter@, false), l@);
                        let a = choose|a: AliasV| #[trigger] v.aliases.contains(a) && search_hit(v.lists, guild_id, filter@, false)(a) == Some(l@);
                        let i = choose|i: int| 0 <= i < v.lists.len() && #[trigger] v.lists[i].id == a.list_id;
                        crate::db_lists::lemma_list_of(v.lists, a.list_id, i);
                        assert(crate::database::list_row_ok(v.lists[i]));
                    }
                    let names = db.get_list_names(l.id);
                    let joined = join_strings(&names, ", ");
                    if list_index > page_start {
                        entries.append("\n");
                    }
                    push_entry(&mut entries, &joined, &l.description);
                    proof {
                        let q = list_index - page_start;
                        if q == 0 {
                            assert(ents.take(1) =~= seq![page_entry(v, l@)]);
                        }
                    }
                    list_index += 1;
                }
                proof {
                    assert(ents.take(pend - page_start) =~= ents);
                }
            }
            page_index += 1;
        }
        proof {
            assert(page_labels(max).take(pages as int) =~= page_labels(max));
        }
    }
    let menu_name = if filter.unicode_len() != 0 {
        String::from_str(filter)
    } else {
        String::from_str("|")
    };
    proof {
        if page < 0 {
            assert(strings_view(labels@) =~= Seq::<Seq<char>>::empty());
        }
        assert(menu_name@ == menu_id(filter@));
    }
    if !in_range {
        return ListPage {
            color: (255, 127, 28),
            title: String::from_str("List page out of range."),
            description: None,
            menu: Some((menu_name, labels)),
        };
    }
    let start = (page as u128) * 20;
    let end: u128 = if maxlists as u128 - start > 19 {
        start + 19
    } else {
        maxlists as u128
    };
    let mut title = String::from_str("Showing lists ");
    push_dec(&mut title, start + 1);
    title.append("-");
    push_dec(&mut title, end);
    title.append(" out of ");
    push_dec(&mut title, maxlists as u128);
    title.append(":");
    ListPage {
        color: (127, 255, 160),
        title,
        description: Some(entries),
        menu: Some((menu_name, labels)),
    }
}

/// The filter a page menu stands for: its id, with `|` meaning none.
pub fn menu_filter(custom_id: &str) -> (res: String)
    ensures
        res@ == (if custom_id@ == "|"@ { Seq::<char>::empty() } else { custom_id@ }),
{
    if str_eq(custom_id, "|") {
        String::new()
    } else {
        String::from_str(custom_id)
    }
}

} // verus!
