use vstd::prelude::*;
use vstd::string::*;

use crate::database::{
    AliasRow, AliasV, Database, DbError, DbView, I64_MAX, ListRow, ListV, MembershipRow,
    ProposalRow, aliases_sorted, aliases_view, has_guild_row, has_list_row, keys_increasing,
    list_keys, list_row_ok, lists_view, proposal_keys, sql_int,
};
use crate::text::{
    lemma_str_le_total, lemma_str_le_trans, like_filter, like_filter_exec, str_eq, str_le,
    str_le_exec,
};
use crate::structures::{JoinResult, ListId, PERMISSION, PingList};

verus! {

/// A column of `lists` with the value to write into it.
#[derive(PartialEq, Eq, Structural, Clone, Copy, Debug)]
pub enum ListField {
    Ping(PERMISSION),
    Join(PERMISSION),
    Visible(bool),
    Cooldown(i64),
}

pub open spec fn list_with(l: ListV, f: ListField) -> ListV {
    match f {
        ListField::Ping(p) => ListV { ping_permission: p, ..l },
        ListField::Join(p) => ListV { join_permission: p, ..l },
        ListField::Visible(b) => ListV { visible: b, ..l },
        ListField::Cooldown(c) => ListV { cooldown: c, ..l },
    }
}

/// `UPDATE lists SET <f> WHERE id = <id>`.
pub open spec fn update_lists(lists: Seq<ListV>, id: u64, f: ListField) -> Seq<ListV> {
    lists.map_values(|l: ListV| if l.id == id { list_with(l, f) } else { l })
}

/// `UPDATE lists SET description = <d> WHERE id = <id>`.
pub open spec fn describe_lists(lists: Seq<ListV>, id: u64, d: Seq<char>) -> Seq<ListV> {
    lists.map_values(|l: ListV| if l.id == id { ListV { description: d, ..l } } else { l })
}

/// The row of list `id` (keys are unique, so there is at most one).
pub open spec fn list_of(lists: Seq<ListV>, id: u64) -> ListV {
    lists[choose|i: int| 0 <= i < lists.len() && lists[i].id == id]
}

impl DbView {
    pub open spec fn with_lists(self, lists: Seq<ListV>) -> DbView {
        DbView { lists, ..self }
    }
}

pub proof fn lemma_list_of(lists: Seq<ListV>, id: u64, i: int)
    requires
        keys_increasing(list_keys(lists)),
        0 <= i < lists.len(),
        lists[i].id == id,
    ensures
        list_of(lists, id) == lists[i],
{
    let k = choose|k: int| 0 <= k < lists.len() && lists[k].id == id;
    assert(0 <= k < lists.len() && lists[k].id == id);
    if k < i {
        assert(list_keys(lists)[k] < list_keys(lists)[i]);
    } else if i < k {
        assert(list_keys(lists)[i] < list_keys(lists)[k]);
    }
}

/// A rewrite of `lists` that keeps every row's key and guild, and keeps each
/// row acceptable, keeps the store well formed.
pub proof fn lemma_lists_rewritten(old: DbView, new: DbView)
    requires
        old.wf(),
        new == old.with_lists(new.lists),
        new.lists.len() == old.lists.len(),
        forall|j: int| 0 <= j < new.lists.len() ==> (#[trigger] new.lists[j]).id == old.lists[j].id
            && new.lists[j].guild_id == old.lists[j].guild_id && list_row_ok(new.lists[j]),
    ensures
        new.wf(),
        forall|id: u64| has_list_row(new.lists, id) == has_list_row(old.lists, id),
{
    assert(list_keys(new.lists) =~= list_keys(old.lists));
    assert forall|id: u64| has_list_row(new.lists, id) == has_list_row(old.lists, id) by {
        if has_list_row(old.lists, id) {
            let j = choose|j: int| 0 <= j < old.lists.len() && #[trigger] old.lists[j].id == id;
            assert(new.lists[j].id == id);
        }
        if has_list_row(new.lists, id) {
            let j = choose|j: int| 0 <= j < new.lists.len() && #[trigger] new.lists[j].id == id;
            assert(old.lists[j].id == id);
        }
    }
    assert forall|i: int| 0 <= i < new.aliases.len() implies has_list_row(new.lists, #[trigger] new.aliases[i].list_id) by {
        assert(has_list_row(old.lists, old.aliases[i].list_id));
    }
    assert forall|i: int| 0 <= i < new.memberships.len() implies has_list_row(new.lists, #[trigger] new.memberships[i].list_id) by {
        assert(has_list_row(old.lists, old.memberships[i].list_id));
    }
    assert forall|i: int| 0 <= i < new.proposals.len() implies has_list_row(new.lists, #[trigger] new.proposals[i].list_id) by {
        assert(has_list_row(old.lists, old.proposals[i].list_id));
    }
    assert forall|i: int| 0 <= i < new.lists.len() implies has_guild_row(new.guilds, #[trigger] new.lists[i].guild_id) by {
        assert(has_guild_row(old.guilds, old.lists[i].guild_id));
    }
}

impl Database {
    /// Index of the row of list `id`.
    pub(crate) fn find_list(&self, id: u64) -> (res: Option<usize>)
        requires
            self@.wf(),
        ensures
            res matches Some(i) ==> i < self@.lists.len() && self@.lists[i as int].id == id
                && list_of(self@.lists, id) == self@.lists[i as int],
            res is None ==> !has_list_row(self@.lists, id),
    {
        let mut i: usize = 0;
        while i < self.lists.len()
            invariant
                self@.wf(),
                i <= self.lists.len(),
                forall|j: int| 0 <= j < i ==> (#[trigger] self@.lists[j]).id != id,
            decreases self.lists.len() - i,
        {
            if self.lists[i].id == id {
                proof {
                    lemma_list_of(self@.lists, id, i as int);
                }
                return Some(i);
            }
            i += 1;
        }
        None
    }

    fn update_list(&mut self, id: u64, f: ListField)
        requires
            old(self)@.wf(),
            f matches ListField::Cooldown(c) ==> c >= -1,
        ensures
            final(self)@ == old(self)@.with_lists(update_lists(old(self)@.lists, id, f)),
            final(self)@.wf(),
    {
        let ghost old_v = self@;
        let mut i: usize = 0;
        assert forall|j: int| 0 <= j < self.lists.len() implies (#[trigger] self.lists@[j])@ == old_v.lists[j] by {
            assert(old_v.lists[j] == lists_view(self.lists@)[j]);
        }
        while i < self.lists.len()
            invariant
                i <= self.lists.len(),
                self.lists.len() == old_v.lists.len(),
                self@ == old_v.with_lists(lists_view(self.lists@)),
                f matches ListField::Cooldown(c) ==> c >= -1,
                forall|j: int| 0 <= j < i ==> (#[trigger] self.lists@[j])@ == (if old_v.lists[j].id == id {
                    list_with(old_v.lists[j], f)
                } else {
                    old_v.lists[j]
                }),
                forall|j: int| i <= j < self.lists.len() ==> (#[trigger] self.lists@[j])@ == old_v.lists[j],
            decreases self.lists.len() - i,
        {
            if self.lists[i].id == id {
                let r = &self.lists[i];
                let mut row = ListRow {
                    id: r.id,
                    guild_id: r.guild_id,
                    description: r.description.clone(),
                    cooldown: r.cooldown,
                    join_permission: r.join_permission,
                    ping_permission: r.ping_permission,
                    visible: r.visible,
                };
                match f {
                    ListField::Ping(p) => { row.ping_permission = p; },
                    ListField::Join(p) => { row.join_permission = p; },
                    ListField::Visible(b) => { row.visible = b; },
                    ListField::Cooldown(c) => { row.cooldown = c; },
                }
                self.lists.set(i, row);
            }
            i += 1;
        }
        assert(self@.lists =~= update_lists(old_v.lists, id, f)) by {
            assert forall|j: int| 0 <= j < self.lists.len() implies self@.lists[j] == update_lists(old_v.lists, id, f)[j] by {
                assert(self@.lists[j] == self.lists@[j]@);
            }
        }
        proof {
            lemma_lists_rewritten(old_v, self@);
        }
    }

    pub fn set_pingable(&mut self, list_id: ListId, pingable: PERMISSION) -> (res: bool)
        requires
            old(self)@.wf(),
            sql_int(list_id),
        ensures
            final(self)@.wf(),
            final(self)@ == old(self)@.with_lists(
                update_lists(old(self)@.lists, list_id, ListField::Ping(pingable)),
            ),
            res == has_list_row(old(self)@.lists, list_id),
    {
        let found = self.find_list(list_id).is_some();
        self.update_list(list_id, ListField::Ping(pingable));
        found
    }

    pub fn set_joinable(&mut self, list_id: ListId, joinable: PERMISSION) -> (res: bool)
        requires
            old(self)@.wf(),
            sql_int(list_id),
        ensures
            final(self)@.wf(),
            final(self)@ == old(self)@.with_lists(
                update_lists(old(self)@.lists, list_id, ListField::Join(joinable)),
            ),
            res == has_list_row(old(self)@.lists, list_id),
    {
        let found = self.find_list(list_id).is_some();
        self.update_list(list_id, ListField::Join(joinable));
        found
    }

    pub fn set_visible(&mut self, list_id: ListId, visible: bool) -> (res: bool)
        requires
            old(self)@.wf(),
            sql_int(list_id),
        ensures
            final(self)@.wf(),
            final(self)@ == old(self)@.with_lists(
                update_lists(old(self)@.lists, list_id, ListField::Visible(visible)),
            ),
            res == has_list_row(old(self)@.lists, list_id),
    {
        let found = self.find_list(list_id).is_some();
        self.update_list(list_id, ListField::Visible(visible));
        found
    }

    /// Sets a list's own cooldown; `-1` means the guild's list cooldown applies,
    /// and the store refuses anything lower for a known list.
    pub fn set_cooldown(&mut self, list_id: ListId, value: i64) -> (res: bool)
        requires
            old(self)@.wf(),
            sql_int(list_id),
            has_list_row(old(self)@.lists, list_id) ==> value >= -1,
        ensures
            final(self)@.wf(),
            final(self)@ == old(self)@.with_lists(
                update_lists(old(self)@.lists, list_id, ListField::Cooldown(value)),
            ),
            res == has_list_row(old(self)@.lists, list_id),
    {
        let found = self.find_list(list_id).is_some();
        if found {
            self.update_list(list_id, ListField::Cooldown(value));
        } else {
            assert(self@.lists =~= update_lists(self@.lists, list_id, ListField::Cooldown(value)));
        }
        found
    }

    pub fn set_description(&mut self, list_id: ListId, value: &str) -> (res: bool)
        requires
            old(self)@.wf(),
            sql_int(list_id),
        ensures
            final(self)@.wf(),
            final(self)@ == old(self)@.with_lists(
                describe_lists(old(self)@.lists, list_id, value@),
            ),
            res == has_list_row(old(self)@.lists, list_id),
    {
        let found = self.find_list(list_id).is_some();
        let ghost old_v = self@;
        let mut i: usize = 0;
        assert forall|j: int| 0 <= j < self.lists.len() implies (#[trigger] self.lists@[j])@ == old_v.lists[j] by {
            assert(old_v.lists[j] == lists_view(self.lists@)[j]);
        }
        while i < self.lists.len()
            invariant
                i <= self.lists.len(),
                self.lists.len() == old_v.lists.len(),
                self@ == old_v.with_lists(lists_view(self.lists@)),
                forall|j: int| 0 <= j < i ==> (#[trigger] self.lists@[j])@ == (if old_v.lists[j].id == list_id {
                    ListV { description: value@, ..old_v.lists[j] }
                } else {
                    old_v.lists[j]
                }),
                forall|j: int| i <= j < self.lists.len() ==> (#[trigger] self.lists@[j])@ == old_v.lists[j],
            decreases self.lists.len() - i,
        {
            if self.lists[i].id == list_id {
                let r = &self.lists[i];
                let row = ListRow {
                    id: r.id,
                    guild_id: r.guild_id,
                    description: String::from_str(value),
                    cooldown: r.cooldown,
                    join_permission: r.join_permission,
                    ping_permission: r.ping_permission,
                    visible: r.visible,
                };
                self.lists.set(i, row);
            }
            i += 1;
        }
        assert(self@.lists =~= describe_lists(old_v.lists, list_id, value@)) by {
            assert forall|j: int| 0 <= j < self.lists.len() implies self@.lists[j] == describe_lists(old_v.lists, list_id, value@)[j] by {
                assert(self@.lists[j] == self.lists@[j]@);
            }
        }
        proof {
            lemma_lists_rewritten(old_v, self@);
        }
        found
    }

    pub fn get_list_exists(&mut self, list_id: ListId) -> (res: bool)
        requires
            old(self)@.wf(),
            sql_int(list_id),
        ensures
            final(self)@ == old(self)@,
            res == has_list_row(old(self)@.lists, list_id),
    {
        self.find_list(list_id).is_some()
    }

    /// A list's cooldown, join permission and ping permission.
    pub fn get_list_permissions(&self, list_id: ListId) -> (res: (i64, PERMISSION, PERMISSION))
        requires
            self@.wf(),
            has_list_row(self@.lists, list_id),
        ensures
            res == ({
                let l = list_of(self@.lists, list_id);
                (l.cooldown, l.join_permission, l.ping_permission)
            }),
    {
        let i = self.find_list(list_id).unwrap();
        let l = &self.lists[i];
        (l.cooldown, l.join_permission, l.ping_permission)
    }

    /// The guild a list belongs to.
    pub fn get_list_guild(&mut self, list_id: ListId) -> (res: Result<u64, DbError>)
        requires
            old(self)@.wf(),
        ensures
            final(self)@ == old(self)@,
            !sql_int(list_id) ==> res == Err::<u64, DbError>(DbError::ToSqlConversion),
            sql_int(list_id) && !has_list_row(old(self)@.lists, list_id) ==> res == Err::<u64, DbError>(
                DbError::QueryReturnedNoRows,
            ),
            sql_int(list_id) && has_list_row(old(self)@.lists, list_id) ==> res == Ok::<u64, DbError>(
                list_of(old(self)@.lists, list_id).guild_id,
            ),
    {
        if list_id > I64_MAX {
            return Err(DbError::ToSqlConversion);
        }
        match self.find_list(list_id) {
            Some(i) => Ok(self.lists[i].guild_id),
            None => Err(DbError::QueryReturnedNoRows),
        }
    }
}

// ---------------------------------------------------------------------------
// Aliases
// ---------------------------------------------------------------------------

impl DbView {
    pub open spec fn with_aliases(self, aliases: Seq<AliasV>) -> DbView {
        DbView { aliases, ..self }
    }

    pub open spec fn with_memberships(self, memberships: Seq<MembershipRow>) -> DbView {
        DbView { memberships, ..self }
    }

    pub open spec fn with_proposals(self, proposals: Seq<ProposalRow>) -> DbView {
        DbView { proposals, ..self }
    }
}

/// List `list_id` has the name `name`.
pub open spec fn has_alias(aliases: Seq<AliasV>, list_id: u64, name: Seq<char>) -> bool {
    exists|j: int| 0 <= j < aliases.len() && (#[trigger] aliases[j]).list_id == list_id && aliases[j].name == name
}

/// `k` is where `name` goes in the sorted names: after every name that is not
/// larger, before the first larger one.
pub open spec fn alias_pos_ok(aliases: Seq<AliasV>, name: Seq<char>, k: int) -> bool {
    &&& 0 <= k <= aliases.len()
    &&& forall|j: int| 0 <= j < k ==> str_le((#[trigger] aliases[j]).name, name)
    &&& k < aliases.len() ==> !str_le(aliases[k].name, name)
}

/// The alias table with `a` added in name order, after the names equal to its own.
pub open spec fn insert_alias(aliases: Seq<AliasV>, a: AliasV) -> Seq<AliasV> {
    aliases.insert(choose|k: int| alias_pos_ok(aliases, a.name, k), a)
}

/// The rows an alias deletion keeps: all but list `list_id`'s, or, given a
/// name, all but that one name of the list.
pub open spec fn alias_kept(list_id: u64, name: Option<Seq<char>>) -> spec_fn(AliasV) -> bool {
    |a: AliasV| !(a.list_id == list_id && (name matches Some(n) ==> a.name == n))
}

pub proof fn lemma_insert_alias(aliases: Seq<AliasV>, a: AliasV, k: int)
    requires
        alias_pos_ok(aliases, a.name, k),
        aliases_sorted(aliases),
    ensures
        insert_alias(aliases, a) == aliases.insert(k, a),
        aliases_sorted(aliases.insert(k, a)),
{
    let c = choose|c: int| alias_pos_ok(aliases, a.name, c);
    assert(alias_pos_ok(aliases, a.name, c));
    if c < k {
        assert(str_le(aliases[c].name, a.name));
    } else if k < c {
        assert(str_le(aliases[k].name, a.name));
    }
    let r = aliases.insert(k, a);
    if k < aliases.len() {
        lemma_str_le_total(aliases[k].name, a.name);
    }
    assert forall|i: int, j: int| 0 <= i < j < r.len() implies str_le(r[i].name, r[j].name) by {
        if j < k {
        } else if j == k {
        } else if i < k {
            assert(r[j] == aliases[j - 1]);
            if k < j - 1 {
                lemma_str_le_trans(a.name, aliases[k].name, aliases[j - 1].name);
            }
            lemma_str_le_trans(aliases[i].name, a.name, aliases[j - 1].name);
        } else if i == k {
            if k < j - 1 {
                lemma_str_le_trans(a.name, aliases[k].name, aliases[j - 1].name);
            }
        } else {
        }
    }
}

pub proof fn lemma_filter_aliases_sorted(s: Seq<AliasV>, p: spec_fn(AliasV) -> bool)
    requires
        aliases_sorted(s),
    ensures
        aliases_sorted(s.filter(p)),
    decreases s.len(),
{
    reveal(Seq::filter);
    if s.len() > 0 {
        let d = s.drop_last();
        assert(aliases_sorted(d));
        lemma_filter_aliases_sorted(d, p);
        let f = d.filter(p);
        if p(s.last()) {
            assert forall|k: int| 0 <= k < f.len() implies str_le(f[k].name, s.last().name) by {
                d.lemma_filter_contains_rev(p, f[k]);
                let j = choose|j: int| 0 <= j < d.len() && d[j] == f[k];
                assert(s[j] == d[j]);
            }
            assert(s.filter(p) == f.push(s.last()));
        }
    }
}

/// Keeping some elements keeps every relation that held between any two
/// elements in order.
pub proof fn lemma_filter_pairwise<T>(s: Seq<T>, p: spec_fn(T) -> bool, r: spec_fn(T, T) -> bool)
    requires
        forall|i: int, j: int| 0 <= i < j < s.len() ==> #[trigger] r(s[i], s[j]),
    ensures
        forall|i: int, j: int| 0 <= i < j < s.filter(p).len() ==> #[trigger] r(s.filter(p)[i], s.filter(p)[j]),
    decreases s.len(),
{
    if s.len() > 0 {
        let d = s.drop_last();
        let x = s.last();
        assert forall|i: int, j: int| 0 <= i < j < d.len() implies #[trigger] r(d[i], d[j]) by {
            assert(d[i] == s[i] && d[j] == s[j]);
        }
        lemma_filter_pairwise(d, p, r);
        assert(d.push(x) =~= s);
        d.lemma_filter_push(x, p);
        let f = d.filter(p);
        if p(x) {
            assert forall|i: int, j: int| 0 <= i < j < s.filter(p).len() implies #[trigger] r(s.filter(p)[i], s.filter(p)[j]) by {
                if j < f.len() {
                    assert(s.filter(p)[i] == f[i] && s.filter(p)[j] == f[j]);
                } else {
                    lemma_filter_keeps(d, p, i);
                    let k = choose|k: int| 0 <= k < d.len() && d[k] == f[i];
                    assert(s[k] == d[k]);
                    assert(r(s[k], s[s.len() - 1]));
                    assert(s.filter(p)[i] == f[i]);
                }
            }
        }
    }
}

pub proof fn lemma_filter_keeps<T>(s: Seq<T>, p: spec_fn(T) -> bool, k: int)
    requires
        0 <= k < s.filter(p).len(),
    ensures
        exists|j: int| 0 <= j < s.len() && s[j] == s.filter(p)[k],
        p(s.filter(p)[k]),
{
    s.lemma_filter_contains_rev(p, s.filter(p)[k]);
    s.lemma_filter_pred(p, k);
}

pub proof fn lemma_filter_has<T>(s: Seq<T>, p: spec_fn(T) -> bool, j: int)
    requires
        0 <= j < s.len(),
        p(s[j]),
    ensures
        exists|k: int| 0 <= k < s.filter(p).len() && s.filter(p)[k] == s[j],
{
    s.lemma_filter_contains(p, j);
}

pub proof fn lemma_filter_lists_increasing(s: Seq<ListV>, p: spec_fn(ListV) -> bool)
    requires
        keys_increasing(list_keys(s)),
    ensures
        keys_increasing(list_keys(s.filter(p))),
    decreases s.len(),
{
    reveal(Seq::filter);
    if s.len() > 0 {
        let d = s.drop_last();
        assert(list_keys(d) =~= list_keys(s).drop_last());
        lemma_filter_lists_increasing(d, p);
        let f = d.filter(p);
        if p(s.last()) {
            assert forall|k: int| 0 <= k < f.len() implies f[k].id < s.last().id by {
                d.lemma_filter_contains_rev(p, f[k]);
                let j = choose|j: int| 0 <= j < d.len() && d[j] == f[k];
                assert(list_keys(s)[j] < list_keys(s)[s.len() - 1]);
            }
            let g = f.push(s.last());
            assert(s.filter(p) == g);
            assert forall|i: int, j: int| 0 <= i < j < g.len() implies list_keys(g)[i] < list_keys(g)[j] by {
                if j < f.len() {
                    assert(list_keys(f)[i] < list_keys(f)[j]);
                }
            }
        }
    }
}

pub proof fn lemma_filter_proposals_increasing(s: Seq<ProposalRow>, p: spec_fn(ProposalRow) -> bool)
    requires
        keys_increasing(proposal_keys(s)),
    ensures
        keys_increasing(proposal_keys(s.filter(p))),
    decreases s.len(),
{
    reveal(Seq::filter);
    if s.len() > 0 {
        let d = s.drop_last();
        assert(proposal_keys(d) =~= proposal_keys(s).drop_last());
        lemma_filter_proposals_increasing(d, p);
        let f = d.filter(p);
        if p(s.last()) {
            assert forall|k: int| 0 <= k < f.len() implies f[k].list_id < s.last().list_id by {
                d.lemma_filter_contains_rev(p, f[k]);
                let j = choose|j: int| 0 <= j < d.len() && d[j] == f[k];
                assert(proposal_keys(s)[j] < proposal_keys(s)[s.len() - 1]);
            }
            let g = f.push(s.last());
            assert(s.filter(p) == g);
            assert forall|i: int, j: int| 0 <= i < j < g.len() implies proposal_keys(g)[i] < proposal_keys(g)[j] by {
                if j < f.len() {
                    assert(proposal_keys(f)[i] < proposal_keys(f)[j]);
                }
            }
        }
    }
}

impl Database {
    /// Whether list `list_id` has the name `name`.
    pub(crate) fn find_alias(&self, list_id: u64, name: &str) -> (res: bool)
        ensures
            res == has_alias(self@.aliases, list_id, name@),
    {
        let mut i: usize = 0;
        while i < self.aliases.len()
            invariant
                i <= self.aliases.len(),
                forall|j: int| 0 <= j < i ==> !((#[trigger] self@.aliases[j]).list_id == list_id
                    && self@.aliases[j].name == name@),
            decreases self.aliases.len() - i,
        {
            let a = &self.aliases[i];
            proof {
                assert(self@.aliases[i as int] == a@);
            }
            if a.list_id == list_id && str_eq(a.name.as_str(), name) {
                return true;
            }
            i += 1;
        }
        false
    }

    /// Adds a name to an existing list, keeping the names sorted.
    fn insert_alias_row(&mut self, list_id: u64, name: &str)
        requires
            old(self)@.wf(),
            sql_int(list_id),
            has_list_row(old(self)@.lists, list_id),
            !has_alias(old(self)@.aliases, list_id, name@),
        ensures
            final(self)@ == old(self)@.with_aliases(
                insert_alias(old(self)@.aliases, AliasV { list_id, name: name@ }),
            ),
            final(self)@.wf(),
    {
        let ghost old_v = self@;
        let mut k: usize = 0;
        while k < self.aliases.len() && str_le_exec(self.aliases[k].name.as_str(), name)
            invariant
                k <= self.aliases.len(),
                self@ == old_v,
                forall|j: int| 0 <= j < k ==> str_le((#[trigger] old_v.aliases[j]).name, name@),
            decreases self.aliases.len() - k,
        {
            proof {
                assert(old_v.aliases[k as int] == self.aliases@[k as int]@);
            }
            k += 1;
        }
        proof {
            if k < self.aliases.len() {
                assert(old_v.aliases[k as int] == self.aliases@[k as int]@);
            }
            assert(alias_pos_ok(old_v.aliases, name@, k as int));
            lemma_insert_alias(old_v.aliases, AliasV { list_id, name: name@ }, k as int);
        }
        self.aliases.insert(k, AliasRow { list_id, name: String::from_str(name) });
        proof {
            let n = self@;
            assert(n.aliases =~= old_v.aliases.insert(k as int, AliasV { list_id, name: name@ }));
            assert(n == old_v.with_aliases(n.aliases));
            assert forall|i: int| 0 <= i < n.aliases.len() implies has_list_row(n.lists, #[trigger] n.aliases[i].list_id) by {
                if i < k {
                    assert(n.aliases[i] == old_v.aliases[i]);
                } else if i > k {
                    assert(n.aliases[i] == old_v.aliases[i - 1]);
                }
            }
            assert forall|i: int| 0 <= i < n.aliases.len() implies sql_int(#[trigger] n.aliases[i].list_id) by {
                if i < k {
                    assert(n.aliases[i] == old_v.aliases[i]);
                } else if i > k {
                    assert(n.aliases[i] == old_v.aliases[i - 1]);
                }
            }
            assert forall|i: int, j: int| 0 <= i < j < n.aliases.len() implies !(#[trigger] n.aliases[i].list_id
                == #[trigger] n.aliases[j].list_id && n.aliases[i].name == n.aliases[j].name) by {
                let a = AliasV { list_id, name: name@ };
                if i == k {
                    assert(n.aliases[j] == old_v.aliases[j - 1]);
                    if n.aliases[j].list_id == list_id && n.aliases[j].name == name@ {
                        assert(has_alias(old_v.aliases, list_id, name@));
                    }
                } else if j == k {
                    assert(n.aliases[i] == old_v.aliases[i]);
                    if n.aliases[i].list_id == list_id && n.aliases[i].name == name@ {
                        assert(has_alias(old_v.aliases, list_id, name@));
                    }
                } else {
                    let i2 = if i < k { i } else { i - 1 };
                    let j2 = if j < k { j } else { j - 1 };
                    assert(n.aliases[i] == old_v.aliases[i2]);
                    assert(n.aliases[j] == old_v.aliases[j2]);
                    assert(!(old_v.aliases[i2].list_id == old_v.aliases[j2].list_id
                        && old_v.aliases[i2].name == old_v.aliases[j2].name));
                }
            }
        }
    }

    /// Keeps the aliases `alias_kept(list_id, name)` selects.
    fn retain_aliases(&mut self, list_id: u64, name: Option<&str>)
        requires
            old(self)@.wf(),
        ensures
            final(self)@ == old(self)@.with_aliases(
                old(self)@.aliases.filter(alias_kept(list_id, match name { Some(n) => Some(n@), None => None })),
            ),
            final(self)@.wf(),
    {
        let ghost old_v = self@;
        let ghost p = alias_kept(list_id, match name { Some(n) => Some(n@), None => None });
        let mut kept: Vec<AliasRow> = Vec::new();
        let mut i: usize = 0;
        while i < self.aliases.len()
            invariant
                i <= self.aliases.len(),
                self@ == old_v,
                p == alias_kept(list_id, match name { Some(n) => Some(n@), None => None }),
                aliases_view(kept@) == old_v.aliases.take(i as int).filter(p),
            decreases self.aliases.len() - i,
        {
            let a = &self.aliases[i];
            let drop = a.list_id == list_id && match name {
                Some(n) => str_eq(a.name.as_str(), n),
                None => true,
            };
            proof {
                assert(old_v.aliases[i as int] == a@);
                assert(old_v.aliases.take(i + 1) =~= old_v.aliases.take(i as int).push(a@));
                old_v.aliases.take(i as int).lemma_filter_push(a@, p);
            }
            if !drop {
                let ghost before = kept@;
                kept.push(AliasRow { list_id: a.list_id, name: a.name.clone() });
                proof {
                    assert(aliases_view(kept@) =~= aliases_view(before).push(a@));
                }
            }
            i += 1;
        }
        proof {
            assert(old_v.aliases.take(self.aliases.len() as int) =~= old_v.aliases);
        }
        self.aliases = kept;
        proof {
            let n = self@;
            assert(n.aliases == old_v.aliases.filter(p));
            assert(n == old_v.with_aliases(old_v.aliases.filter(p)));
            lemma_filter_aliases_sorted(old_v.aliases, p);
            assert(aliases_sorted(n.aliases));
            let same = |a: AliasV, b: AliasV| !(a.list_id == b.list_id && a.name == b.name);
            assert forall|i: int, j: int| 0 <= i < j < old_v.aliases.len() implies #[trigger] same(old_v.aliases[i], old_v.aliases[j]) by {}
            lemma_filter_pairwise(old_v.aliases, p, same);
            assert forall|i: int, j: int| 0 <= i < j < n.aliases.len() implies !(#[trigger] n.aliases[i].list_id
                == #[trigger] n.aliases[j].list_id && n.aliases[i].name == n.aliases[j].name) by {
                assert(same(n.aliases[i], n.aliases[j]));
            }
            assert forall|k: int| 0 <= k < n.aliases.len() implies has_list_row(n.lists, #[trigger] n.aliases[k].list_id)
                && sql_int(n.aliases[k].list_id) by {
                lemma_filter_keeps(old_v.aliases, p, k);
                let j = choose|j: int| 0 <= j < old_v.aliases.len() && old_v.aliases[j] == old_v.aliases.filter(p)[k];
                assert(has_list_row(old_v.lists, old_v.aliases[j].list_id));
                assert(sql_int(old_v.aliases[j].list_id));
            }
        }
    }

    /// Gives a list another name; answers `false`, changing nothing, when the
    /// list already has that name.
    pub fn add_alias(db: &mut Database, list_id: ListId, name: &str) -> (res: bool)
        requires
            old(db)@.wf(),
            sql_int(list_id),
            has_list_row(old(db)@.lists, list_id),
        ensures
            final(db)@.wf(),
            res == !has_alias(old(db)@.aliases, list_id, name@),
            res ==> final(db)@ == old(db)@.with_aliases(
                insert_alias(old(db)@.aliases, AliasV { list_id, name: name@ }),
            ),
            !res ==> final(db)@ == old(db)@,
    {
        if db.find_alias(list_id, name) {
            return false;
        }
        db.insert_alias_row(list_id, name);
        true
    }

    pub fn add_alias_inline(&mut self, list_id: ListId, name: &str) -> (res: bool)
        requires
            old(self)@.wf(),
            sql_int(list_id),
            has_list_row(old(self)@.lists, list_id),
        ensures
            final(self)@.wf(),
            res == !has_alias(old(self)@.aliases, list_id, name@),
            res ==> final(self)@ == old(self)@.with_aliases(
                insert_alias(old(self)@.aliases, AliasV { list_id, name: name@ }),
            ),
            !res ==> final(self)@ == old(self)@,
    {
        Database::add_alias(self, list_id, name)
    }

    /// Removes one name of a list.
    pub fn remove_alias(&mut self, list_id: ListId, name: &str) -> (res: Result<(), DbError>)
        requires
            old(self)@.wf(),
        ensures
            final(self)@.wf(),
            !sql_int(list_id) ==> res == Err::<(), DbError>(DbError::ToSqlConversion)
                && final(self)@ == old(self)@,
            sql_int(list_id) ==> res is Ok && final(self)@ == old(self)@.with_aliases(
                old(self)@.aliases.filter(alias_kept(list_id, Some(name@))),
            ),
    {
        if list_id > I64_MAX {
            return Err(DbError::ToSqlConversion);
        }
        self.retain_aliases(list_id, Some(name));
        Ok(())
    }
}

// ---------------------------------------------------------------------------
// Memberships and list lifetime
// ---------------------------------------------------------------------------

pub open spec fn has_membership(ms: Seq<MembershipRow>, user_id: u64, list_id: u64) -> bool {
    exists|j: int| 0 <= j < ms.len() && (#[trigger] ms[j]).user_id == user_id && ms[j].list_id == list_id
}

/// The memberships a deletion keeps: all but list `list_id`'s, or, given a
/// user, all but that user's membership in the list.
pub open spec fn membership_kept(user_id: Option<u64>, list_id: u64) -> spec_fn(MembershipRow) -> bool {
    |m: MembershipRow| !(m.list_id == list_id && (user_id matches Some(u) ==> m.user_id == u))
}

pub open spec fn proposal_kept(list_id: u64) -> spec_fn(ProposalRow) -> bool {
    |p: ProposalRow| p.list_id != list_id
}

pub open spec fn list_kept(list_id: u64) -> spec_fn(ListV) -> bool {
    |l: ListV| l.id != list_id
}

/// The key the next new list gets: one more than the largest key, or 1.
pub open spec fn next_list_id(lists: Seq<ListV>) -> u64 {
    if lists.len() == 0 {
        1
    } else {
        (lists.last().id + 1) as u64
    }
}

/// A new list key is still a SQL integer.
pub open spec fn list_room(lists: Seq<ListV>) -> bool {
    lists.len() == 0 || lists.last().id < I64_MAX
}

/// The row a new list starts with.
pub open spec fn new_list(id: u64, guild_id: u64) -> ListV {
    ListV {
        id,
        guild_id,
        description: Seq::empty(),
        cooldown: -1i64,
        join_permission: PERMISSION::NEUTRAL,
        ping_permission: PERMISSION::NEUTRAL,
        visible: true,
    }
}

/// The members of a list, in membership order.
pub open spec fn member_of(list_id: u64) -> spec_fn(MembershipRow) -> Option<u64> {
    |m: MembershipRow| if m.list_id == list_id { Some(m.user_id) } else { None }
}

/// The lists of guild `guild_id` that `user_id` is in, in membership order.
pub open spec fn list_of_member(lists: Seq<ListV>, guild_id: u64, user_id: u64) -> spec_fn(MembershipRow) -> Option<u64> {
    |m: MembershipRow| if m.user_id == user_id && list_of(lists, m.list_id).guild_id == guild_id {
        Some(m.list_id)
    } else {
        None
    }
}

impl Database {
    pub(crate) fn find_membership(&self, user_id: u64, list_id: u64) -> (res: bool)
        ensures
            res == has_membership(self@.memberships, user_id, list_id),
    {
        let mut i: usize = 0;
        while i < self.memberships.len()
            invariant
                i <= self.memberships.len(),
                forall|j: int| 0 <= j < i ==> !((#[trigger] self@.memberships[j]).user_id == user_id
                    && self@.memberships[j].list_id == list_id),
            decreases self.memberships.len() - i,
        {
            if self.memberships[i].user_id == user_id && self.memberships[i].list_id == list_id {
                return true;
            }
            i += 1;
        }
        false
    }

    fn retain_memberships(&mut self, user_id: Option<u64>, list_id: u64)
        requires
            old(self)@.wf(),
        ensures
            final(self)@ == old(self)@.with_memberships(
                old(self)@.memberships.filter(membership_kept(user_id, list_id)),
            ),
            final(self)@.wf(),
    {
        let ghost old_v = self@;
        let ghost p = membership_kept(user_id, list_id);
        let mut kept: Vec<MembershipRow> = Vec::new();
        let mut i: usize = 0;
        while i < self.memberships.len()
            invariant
                i <= self.memberships.len(),
                self@ == old_v,
                p == membership_kept(user_id, list_id),
                kept@ == old_v.memberships.take(i as int).filter(p),
            decreases self.memberships.len() - i,
        {
            let m = self.memberships[i];
            let drop = m.list_id == list_id && match user_id {
                Some(u) => m.user_id == u,
                None => true,
            };
            proof {
                assert(old_v.memberships.take(i + 1) =~= old_v.memberships.take(i as int).push(m));
                old_v.memberships.take(i as int).lemma_filter_push(m, p);
            }
            if !drop {
                kept.push(m);
            }
            i += 1;
        }
        proof {
            assert(old_v.memberships.take(self.memberships.len() as int) =~= old_v.memberships);
        }
        self.memberships = kept;
        proof {
            let n = self@;
            assert(n == old_v.with_memberships(old_v.memberships.filter(p)));
            let same = |a: MembershipRow, b: MembershipRow| !(a.user_id == b.user_id && a.list_id == b.list_id);
            assert forall|i: int, j: int| 0 <= i < j < old_v.memberships.len() implies #[trigger] same(old_v.memberships[i], old_v.memberships[j]) by {}
            lemma_filter_pairwise(old_v.memberships, p, same);
            assert forall|i: int, j: int| 0 <= i < j < n.memberships.len() implies !(#[trigger] n.memberships[i].user_id
                == #[trigger] n.memberships[j].user_id && n.memberships[i].list_id == n.memberships[j].list_id) by {
                assert(same(n.memberships[i], n.memberships[j]));
            }
            assert forall|k: int| 0 <= k < n.memberships.len() implies has_list_row(n.lists, #[trigger] n.memberships[k].list_id)
                && sql_int(n.memberships[k].user_id) by {
                lemma_filter_keeps(old_v.memberships, p, k);
                let j = choose|j: int| 0 <= j < old_v.memberships.len() && old_v.memberships[j] == old_v.memberships.filter(p)[k];
                assert(has_list_row(old_v.lists, old_v.memberships[j].list_id));
                assert(sql_int(old_v.memberships[j].user_id));
            }
        }
    }

    fn retain_proposals(&mut self, list_id: u64)
        requires
            old(self)@.wf(),
        ensures
            final(self)@ == old(self)@.with_proposals(old(self)@.proposals.filter(proposal_kept(list_id))),
            final(self)@.wf(),
    {
        let ghost old_v = self@;
        let ghost p = proposal_kept(list_id);
        let mut kept: Vec<ProposalRow> = Vec::new();
        let mut i: usize = 0;
        while i < self.proposals.len()
            invariant
                i <= self.proposals.len(),
                self@ == old_v,
                p == proposal_kept(list_id),
                kept@ == old_v.proposals.take(i as int).filter(p),
            decreases self.proposals.len() - i,
        {
            let r = self.proposals[i];
            proof {
                assert(old_v.proposals.take(i + 1) =~= old_v.proposals.take(i as int).push(r));
                old_v.proposals.take(i as int).lemma_filter_push(r, p);
            }
            if r.list_id != list_id {
                kept.push(r);
            }
            i += 1;
        }
        proof {
            assert(old_v.proposals.take(self.proposals.len() as int) =~= old_v.proposals);
        }
        self.proposals = kept;
        proof {
            let n = self@;
            assert(n == old_v.with_proposals(old_v.proposals.filter(p)));
            lemma_filter_proposals_increasing(old_v.proposals, p);
            assert forall|k: int| 0 <= k < n.proposals.len() implies has_list_row(n.lists, #[trigger] n.proposals[k].list_id)
                && crate::database::proposal_row_ok(n.proposals[k]) by {
                lemma_filter_keeps(old_v.proposals, p, k);
                let j = choose|j: int| 0 <= j < old_v.proposals.len() && old_v.proposals[j] == old_v.proposals.filter(p)[k];
                assert(has_list_row(old_v.lists, old_v.proposals[j].list_id));
                assert(crate::database::proposal_row_ok(old_v.proposals[j]));
            }
        }
    }

    /// Removes the list row itself; its aliases, memberships and proposal
    /// must be gone already.
    fn delete_list_row(&mut self, list_id: u64)
        requires
            old(self)@.wf(),
            forall|i: int| 0 <= i < old(self)@.aliases.len() ==> (#[trigger] old(self)@.aliases[i]).list_id != list_id,
            forall|i: int| 0 <= i < old(self)@.memberships.len() ==> (#[trigger] old(self)@.memberships[i]).list_id != list_id,
            forall|i: int| 0 <= i < old(self)@.proposals.len() ==> (#[trigger] old(self)@.proposals[i]).list_id != list_id,
        ensures
            final(self)@ == old(self)@.with_lists(old(self)@.lists.filter(list_kept(list_id))),
            final(self)@.wf(),
    {
        let ghost old_v = self@;
        let ghost p = list_kept(list_id);
        let mut kept: Vec<ListRow> = Vec::new();
        let mut i: usize = 0;
        while i < self.lists.len()
            invariant
                i <= self.lists.len(),
                self@ == old_v,
                p == list_kept(list_id),
                lists_view(kept@) == old_v.lists.take(i as int).filter(p),
            decreases self.lists.len() - i,
        {
            let r = &self.lists[i];
            proof {
                assert(old_v.lists[i as int] == r@);
                assert(old_v.lists.take(i + 1) =~= old_v.lists.take(i as int).push(r@));
                old_v.lists.take(i as int).lemma_filter_push(r@, p);
            }
            if r.id != list_id {
                let ghost before = kept@;
                kept.push(ListRow {
                    id: r.id,
                    guild_id: r.guild_id,
                    description: r.description.clone(),
                    cooldown: r.cooldown,
                    join_permission: r.join_permission,
                    ping_permission: r.ping_permission,
                    visible: r.visible,
                });
                proof {
                    assert(lists_view(kept@) =~= lists_view(before).push(r@));
                }
            }
            i += 1;
        }
        proof {
            assert(old_v.lists.take(self.lists.len() as int) =~= old_v.lists);
        }
        self.lists = kept;
        proof {
            let n = self@;
            let f = old_v.lists.filter(p);
            assert(n == old_v.with_lists(f));
            lemma_filter_lists_increasing(old_v.lists, p);
            assert forall|k: int| #![trigger f[k]] 0 <= k < f.len() implies has_guild_row(n.guilds, f[k].guild_id)
                && list_row_ok(f[k]) by {
                lemma_filter_keeps(old_v.lists, p, k);
                let j = choose|j: int| 0 <= j < old_v.lists.len() && old_v.lists[j] == f[k];
                assert(has_guild_row(old_v.guilds, old_v.lists[j].guild_id));
                assert(list_row_ok(old_v.lists[j]));
            }
            assert forall|id: u64| id != list_id && has_list_row(old_v.lists, id) implies has_list_row(f, id) by {
                let j = choose|j: int| 0 <= j < old_v.lists.len() && #[trigger] old_v.lists[j].id == id;
                lemma_filter_has(old_v.lists, p, j);
                let k = choose|k: int| 0 <= k < f.len() && f[k] == old_v.lists[j];
                assert(f[k].id == id);
            }
            assert forall|i: int| 0 <= i < n.aliases.len() implies has_list_row(f, #[trigger] n.aliases[i].list_id) by {
                assert(has_list_row(old_v.lists, old_v.aliases[i].list_id));
            }
            assert forall|i: int| 0 <= i < n.memberships.len() implies has_list_row(f, #[trigger] n.memberships[i].list_id) by {
                assert(has_list_row(old_v.lists, old_v.memberships[i].list_id));
            }
            assert forall|i: int| 0 <= i < n.proposals.len() implies has_list_row(f, #[trigger] n.proposals[i].list_id) by {
                assert(has_list_row(old_v.lists, old_v.proposals[i].list_id));
            }
            assert(keys_increasing(list_keys(n.lists)));
            assert(forall|i: int| 0 <= i < n.lists.len() ==> list_row_ok(#[trigger] n.lists[i]));
            assert(forall|i: int| 0 <= i < n.lists.len() ==> has_guild_row(n.guilds, #[trigger] n.lists[i].guild_id));
            assert(forall|i: int| 0 <= i < n.aliases.len() ==> has_list_row(n.lists, #[trigger] n.aliases[i].list_id));
        }
    }

    /// Adds a membership. A repeated membership and an unknown list are
    /// reported and change nothing.
    pub fn add_member(&mut self, member_id: u64, list_id: ListId) -> (res: JoinResult)
        requires
            old(self)@.wf(),
            sql_int(member_id),
            sql_int(list_id),
        ensures
            final(self)@.wf(),
            has_membership(old(self)@.memberships, member_id, list_id) ==> res == JoinResult::AlreadyMember
                && final(self)@ == old(self)@,
            !has_membership(old(self)@.memberships, member_id, list_id) && !has_list_row(old(self)@.lists, list_id)
                ==> res == JoinResult::ListDoesNotExist && final(self)@ == old(self)@,
            !has_membership(old(self)@.memberships, member_id, list_id) && has_list_row(old(self)@.lists, list_id)
                ==> res == JoinResult::Succes && final(self)@ == old(self)@.with_memberships(
                old(self)@.memberships.push(MembershipRow { user_id: member_id, list_id }),
            ),
    {
        if self.find_membership(member_id, list_id) {
            return JoinResult::AlreadyMember;
        }
        if self.find_list(list_id).is_none() {
            return JoinResult::ListDoesNotExist;
        }
        let ghost old_v = self@;
        self.memberships.push(MembershipRow { user_id: member_id, list_id });
        proof {
            assert(self@ == old_v.with_memberships(old_v.memberships.push(MembershipRow { user_id: member_id, list_id })));
        }
        JoinResult::Succes
    }

    /// Ends a membership; answers whether there was one.
    pub fn remove_member(&mut self, member_id: u64, list_id: ListId) -> (res: Result<bool, DbError>)
        requires
            old(self)@.wf(),
        ensures
            final(self)@.wf(),
            !(sql_int(member_id) && sql_int(list_id)) ==> res == Err::<bool, DbError>(DbError::ToSqlConversion)
                && final(self)@ == old(self)@,
            sql_int(member_id) && sql_int(list_id) ==> res == Ok::<bool, DbError>(
                has_membership(old(self)@.memberships, member_id, list_id),
            ) && final(self)@ == old(self)@.with_memberships(
                old(self)@.memberships.filter(membership_kept(Some(member_id), list_id)),
            ),
    {
        if member_id > I64_MAX || list_id > I64_MAX {
            return Err(DbError::ToSqlConversion);
        }
        let found = self.find_membership(member_id, list_id);
        self.retain_memberships(Some(member_id), list_id);
        Ok(found)
    }

    /// Ends a proposal; answers whether there was one.
    pub fn remove_proposal(&mut self, list_id: ListId) -> (res: Result<bool, DbError>)
        requires
            old(self)@.wf(),
        ensures
            final(self)@.wf(),
            !sql_int(list_id) ==> res == Err::<bool, DbError>(DbError::ToSqlConversion)
                && final(self)@ == old(self)@,
            sql_int(list_id) ==> res == Ok::<bool, DbError>(
                exists|j: int| 0 <= j < old(self)@.proposals.len() && (#[trigger] old(self)@.proposals[j]).list_id == list_id,
            ) && final(self)@ == old(self)@.with_proposals(old(self)@.proposals.filter(proposal_kept(list_id))),
    {
        if list_id > I64_MAX {
            return Err(DbError::ToSqlConversion);
        }
        let mut found = false;
        let mut i: usize = 0;
        while i < self.proposals.len()
            invariant
                i <= self.proposals.len(),
                found == exists|j: int| 0 <= j < i && (#[trigger] self@.proposals[j]).list_id == list_id,
            decreases self.proposals.len() - i,
        {
            if self.proposals[i].list_id == list_id {
                found = true;
                assert(self@.proposals[i as int].list_id == list_id);
            }
            i += 1;
        }
        self.retain_proposals(list_id);
        Ok(found)
    }

    /// Creates a list in a guild under a first name. The list starts visible,
    /// with neutral permissions and the guild's list cooldown.
    pub fn add_list(&mut self, guild_id: u64, name: &str) -> (res: Option<ListId>)
        requires
            old(self)@.wf(),
            sql_int(guild_id),
            has_guild_row(old(self)@.guilds, guild_id),
            list_room(old(self)@.lists),
        ensures
            final(self)@.wf(),
            res == Some(next_list_id(old(self)@.lists)),
            final(self)@ == old(self)@.with_lists(
                old(self)@.lists.push(new_list(next_list_id(old(self)@.lists), guild_id)),
            ).with_aliases(
                insert_alias(old(self)@.aliases, AliasV { list_id: next_list_id(old(self)@.lists), name: name@ }),
            ),
    {
        let ghost old_v = self@;
        let n = self.lists.len();
        let list_id: u64 = if n == 0 {
            1
        } else {
            self.lists[n - 1].id + 1
        };
        proof {
            assert(list_id == next_list_id(old_v.lists));
        }
        self.lists.push(ListRow {
            id: list_id,
            guild_id,
            description: String::new(),
            cooldown: -1,
            join_permission: PERMISSION::NEUTRAL,
            ping_permission: PERMISSION::NEUTRAL,
            visible: true,
        });
        proof {
            let v = self@;
            let l2 = old_v.lists.push(new_list(list_id, guild_id));
            assert(v.lists =~= l2);
            assert(v == old_v.with_lists(l2));
            assert forall|i: int, j: int| 0 <= i < j < l2.len() implies list_keys(l2)[i] < list_keys(l2)[j] by {
                if j < old_v.lists.len() {
                    assert(list_keys(old_v.lists)[i] < list_keys(old_v.lists)[j]);
                } else if 0 < old_v.lists.len() && i < old_v.lists.len() - 1 {
                    assert(list_keys(old_v.lists)[i] < list_keys(old_v.lists)[old_v.lists.len() - 1]);
                }
            }
            assert forall|id: u64| has_list_row(old_v.lists, id) implies has_list_row(l2, id) by {
                let j = choose|j: int| 0 <= j < old_v.lists.len() && #[trigger] old_v.lists[j].id == id;
                assert(l2[j] == old_v.lists[j]);
            }
            assert(l2[old_v.lists.len() as int].id == list_id);
            assert forall|i: int| 0 <= i < v.aliases.len() implies has_list_row(l2, #[trigger] v.aliases[i].list_id) by {
                assert(has_list_row(old_v.lists, old_v.aliases[i].list_id));
            }
            assert forall|i: int| 0 <= i < v.memberships.len() implies has_list_row(l2, #[trigger] v.memberships[i].list_id) by {
                assert(has_list_row(old_v.lists, old_v.memberships[i].list_id));
            }
            assert forall|i: int| 0 <= i < v.proposals.len() implies has_list_row(l2, #[trigger] v.proposals[i].list_id) by {
                assert(has_list_row(old_v.lists, old_v.proposals[i].list_id));
            }
            assert forall|i: int| 0 <= i < l2.len() implies has_guild_row(v.guilds, #[trigger] l2[i].guild_id)
                && list_row_ok(l2[i]) by {
                if i < old_v.lists.len() {
                    assert(l2[i] == old_v.lists[i]);
                }
            }
        }
        proof {
            let v = self@;
            assert forall|i: int| 0 <= i < v.aliases.len() implies (#[trigger] v.aliases[i]).list_id != list_id by {
                let x = v.aliases[i].list_id;
                assert(has_list_row(old_v.lists, x));
                let j = choose|j: int| 0 <= j < old_v.lists.len() && #[trigger] old_v.lists[j].id == x;
                let last = old_v.lists.len() - 1;
                assert(list_keys(old_v.lists)[j] == old_v.lists[j].id);
                assert(list_keys(old_v.lists)[last] == old_v.lists[last].id);
                if j < last {
                    assert(list_keys(old_v.lists)[j] < list_keys(old_v.lists)[last]);
                }
            }
        }
        self.insert_alias_row(list_id, name);
        Some(list_id)
    }

    /// Deletes a list with its names, memberships and proposal; answers
    /// whether the list existed.
    pub fn remove_list(&mut self, list_id: ListId) -> (res: Result<bool, DbError>)
        requires
            old(self)@.wf(),
        ensures
            final(self)@.wf(),
            !sql_int(list_id) ==> res == Err::<bool, DbError>(DbError::ToSqlConversion)
                && final(self)@ == old(self)@,
            sql_int(list_id) ==> res == Ok::<bool, DbError>(has_list_row(old(self)@.lists, list_id))
                && final(self)@ == old(self)@.with_aliases(
                old(self)@.aliases.filter(alias_kept(list_id, None)),
            ).with_memberships(
                old(self)@.memberships.filter(membership_kept(None, list_id)),
            ).with_proposals(
                old(self)@.proposals.filter(proposal_kept(list_id)),
            ).with_lists(
                old(self)@.lists.filter(list_kept(list_id)),
            ),
    {
        if list_id > I64_MAX {
            return Err(DbError::ToSqlConversion);
        }
        let found = self.find_list(list_id).is_some();
        self.retain_aliases(list_id, None);
        self.retain_memberships(None, list_id);
        self.retain_proposals(list_id);
        proof {
            let v = self@;
            assert forall|i: int| 0 <= i < v.aliases.len() implies (#[trigger] v.aliases[i]).list_id != list_id by {
                lemma_filter_keeps(old(self)@.aliases, alias_kept(list_id, None), i);
            }
            assert forall|i: int| 0 <= i < v.memberships.len() implies (#[trigger] v.memberships[i]).list_id != list_id by {
                lemma_filter_keeps(old(self)@.memberships, membership_kept(None, list_id), i);
            }
            assert forall|i: int| 0 <= i < v.proposals.len() implies (#[trigger] v.proposals[i]).list_id != list_id by {
                lemma_filter_keeps(old(self)@.proposals, proposal_kept(list_id), i);
            }
        }
        self.delete_list_row(list_id);
        Ok(found)
    }

    /// The members of a list.
    pub fn get_members_in_list(&mut self, list_id: ListId) -> (res: Vec<u64>)
        requires
            old(self)@.wf(),
            sql_int(list_id),
        ensures
            final(self)@ == old(self)@,
            res@ == old(self)@.memberships.filter_map(member_of(list_id)),
    {
        let mut res: Vec<u64> = Vec::new();
        let mut i: usize = 0;
        while i < self.memberships.len()
            invariant
                i <= self.memberships.len(),
                res@ == self@.memberships.take(i as int).filter_map(member_of(list_id)),
            decreases self.memberships.len() - i,
        {
            proof {
                self@.memberships.lemma_filter_map_take_succ(member_of(list_id), i as int);
            }
            if self.memberships[i].list_id == list_id {
                res.push(self.memberships[i].user_id);
            }
            i += 1;
        }
        proof {
            assert(self@.memberships.take(self.memberships.len() as int) =~= self@.memberships);
        }
        res
    }

    /// The lists of a guild that a user is in.
    pub fn get_lists_with_member(&mut self, guild_id: u64, member_id: u64) -> (res: Result<Vec<u64>, DbError>)
        requires
            old(self)@.wf(),
        ensures
            final(self)@ == old(self)@,
            !(sql_int(guild_id) && sql_int(member_id)) ==> res is Err && res == Err::<Vec<u64>, DbError>(
                DbError::ToSqlConversion,
            ),
            sql_int(guild_id) && sql_int(member_id) ==> (res matches Ok(v) && v@
                == old(self)@.memberships.filter_map(list_of_member(old(self)@.lists, guild_id, member_id))),
    {
        if guild_id > I64_MAX || member_id > I64_MAX {
            return Err(DbError::ToSqlConversion);
        }
        let ghost f = list_of_member(self@.lists, guild_id, member_id);
        let mut res: Vec<u64> = Vec::new();
        let mut i: usize = 0;
        while i < self.memberships.len()
            invariant
                self@.wf(),
                i <= self.memberships.len(),
                f == list_of_member(self@.lists, guild_id, member_id),
                res@ == self@.memberships.take(i as int).filter_map(f),
            decreases self.memberships.len() - i,
        {
            proof {
                self@.memberships.lemma_filter_map_take_succ(f, i as int);
            }
            let m = self.memberships[i];
            if m.user_id == member_id {
                match self.find_list(m.list_id) {
                    Some(k) => {
                        if self.lists[k].guild_id == guild_id {
                            res.push(m.list_id);
                        }
                    },
                    None => {
                        assert(has_list_row(self@.lists, self@.memberships[i as int].list_id));
                    },
                }
            }
            i += 1;
        }
        proof {
            assert(self@.memberships.take(self.memberships.len() as int) =~= self@.memberships);
        }
        Ok(res)
    }
}

// ---------------------------------------------------------------------------
// Queries over names
// ---------------------------------------------------------------------------

impl View for PingList {
    type V = ListV;

    open spec fn view(&self) -> ListV {
        ListV {
            id: self.id,
            guild_id: self.guild_id,
            description: self.description@,
            cooldown: self.cooldown,
            join_permission: self.join_permission,
            ping_permission: self.ping_permission,
            visible: self.visible,
        }
    }
}

pub open spec fn strings_view(v: Seq<String>) -> Seq<Seq<char>> {
    v.map_values(|s: String| s@)
}

pub open spec fn name_of_list(list_id: u64) -> spec_fn(AliasV) -> Option<Seq<char>> {
    |a: AliasV| if a.list_id == list_id { Some(a.name) } else { None }
}

/// List `i` belongs to guild `guild_id` and has the name `name`.
pub open spec fn named_in_guild(v: DbView, name: Seq<char>, guild_id: u64, i: int) -> bool {
    &&& 0 <= i < v.lists.len()
    &&& v.lists[i].guild_id == guild_id
    &&& has_alias(v.aliases, v.lists[i].id, name)
}

pub open spec fn first_named(v: DbView, name: Seq<char>, guild_id: u64, i: int) -> bool {
    &&& named_in_guild(v, name, guild_id, i)
    &&& forall|j: int| 0 <= j < i ==> !named_in_guild(v, name, guild_id, j)
}

/// The first list (in key order) of the guild that carries the name.
pub open spec fn list_named(v: DbView, name: Seq<char>, guild_id: u64) -> Option<u64> {
    if exists|i: int| named_in_guild(v, name, guild_id, i) {
        Some(v.lists[choose|i: int| first_named(v, name, guild_id, i)].id)
    } else {
        None
    }
}

pub proof fn lemma_list_named(v: DbView, name: Seq<char>, guild_id: u64, i: int)
    requires
        first_named(v, name, guild_id, i),
    ensures
        list_named(v, name, guild_id) == Some(v.lists[i].id),
{
    let k = choose|k: int| first_named(v, name, guild_id, k);
    assert(first_named(v, name, guild_id, k));
    if k < i {
        assert(!named_in_guild(v, name, guild_id, k));
    } else if i < k {
        assert(!named_in_guild(v, name, guild_id, i));
    }
}

pub proof fn lemma_first_named_exists(v: DbView, name: Seq<char>, guild_id: u64, k: int)
    requires
        named_in_guild(v, name, guild_id, k),
    ensures
        exists|i: int| first_named(v, name, guild_id, i),
    decreases k,
{
    if exists|j: int| 0 <= j < k && named_in_guild(v, name, guild_id, j) {
        let j = choose|j: int| 0 <= j < k && named_in_guild(v, name, guild_id, j);
        lemma_first_named_exists(v, name, guild_id, j);
    } else {
        assert(first_named(v, name, guild_id, k));
    }
}

/// A list found by name exists and belongs to the guild.
pub proof fn lemma_list_named_some(v: DbView, name: Seq<char>, guild_id: u64)
    requires
        list_named(v, name, guild_id) is Some,
    ensures
        has_list_row(v.lists, list_named(v, name, guild_id)->Some_0),
        exists|i: int| named_in_guild(v, name, guild_id, i) && v.lists[i].id == list_named(v, name, guild_id)->Some_0,
{
    let k = choose|i: int| named_in_guild(v, name, guild_id, i);
    lemma_first_named_exists(v, name, guild_id, k);
    let i = choose|i: int| first_named(v, name, guild_id, i);
    assert(first_named(v, name, guild_id, i));
    assert(v.lists[i].id == list_named(v, name, guild_id)->Some_0);
}

/// The list of an alias, when it belongs to guild `guild_id`.
pub open spec fn guild_list_of(lists: Seq<ListV>, guild_id: u64, a: AliasV) -> bool {
    has_list_row(lists, a.list_id) && list_of(lists, a.list_id).guild_id == guild_id
}

/// `/list` search: aliases matching the filter, of visible lists unless hidden
/// ones are shown, each giving its list.
pub open spec fn search_hit(lists: Seq<ListV>, guild_id: u64, filter: Seq<char>, show_hidden: bool) -> spec_fn(AliasV) -> Option<ListV> {
    |a: AliasV| if like_filter(a.name, filter) && guild_list_of(lists, guild_id, a)
        && (list_of(lists, a.list_id).visible || show_hidden) {
        Some(list_of(lists, a.list_id))
    } else {
        None
    }
}

/// A list counted by a search: in the guild, visible unless hidden ones are
/// shown, and with a name matching the filter.
pub open spec fn counted_list(aliases: Seq<AliasV>, guild_id: u64, filter: Seq<char>, show_hidden: bool) -> spec_fn(ListV) -> bool {
    |l: ListV| l.guild_id == guild_id && (l.visible || show_hidden) && exists|j: int|
        0 <= j < aliases.len() && (#[trigger] aliases[j]).list_id == l.id && like_filter(aliases[j].name, filter)
}

/// Names matching the filter of lists that can be pinged, or of all lists.
pub open spec fn ping_hit(lists: Seq<ListV>, guild_id: u64, filter: Seq<char>, show_all: bool) -> spec_fn(AliasV) -> Option<Seq<char>> {
    |a: AliasV| if like_filter(a.name, filter) && guild_list_of(lists, guild_id, a)
        && (list_of(lists, a.list_id).ping_permission != PERMISSION::DENY || show_all) {
        Some(a.name)
    } else {
        None
    }
}

/// Names matching the filter of pingable lists (or all lists) the user is in.
pub open spec fn membership_hit(v: DbView, guild_id: u64, user_id: u64, filter: Seq<char>, show_all: bool) -> spec_fn(AliasV) -> Option<Seq<char>> {
    |a: AliasV| if like_filter(a.name, filter) && guild_list_of(v.lists, guild_id, a)
        && (list_of(v.lists, a.list_id).ping_permission != PERMISSION::DENY || show_all)
        && has_membership(v.memberships, user_id, a.list_id) {
        Some(a.name)
    } else {
        None
    }
}

/// Names matching the filter of joinable lists (or all lists) the user is not in.
pub open spec fn joinable_hit(v: DbView, guild_id: u64, user_id: u64, filter: Seq<char>, show_all: bool) -> spec_fn(AliasV) -> Option<Seq<char>> {
    |a: AliasV| if like_filter(a.name, filter) && guild_list_of(v.lists, guild_id, a)
        && (list_of(v.lists, a.list_id).join_permission != PERMISSION::DENY || show_all)
        && !has_membership(v.memberships, user_id, a.list_id) {
        Some(a.name)
    } else {
        None
    }
}

/// `LIMIT start, amount`: the elements from `start` on, at most `amount` of them.
pub open spec fn window<T>(s: Seq<T>, start: int, amount: int) -> Seq<T> {
    if start >= s.len() {
        Seq::empty()
    } else if amount < s.len() - start {
        s.subrange(start, start + amount)
    } else {
        s.subrange(start, s.len() as int)
    }
}

/// Which search a name query runs.
pub enum NameSearch {
    Ping,
    Membership(u64),
    Joinable(u64),
}

pub open spec fn name_search_hit(v: DbView, guild_id: u64, search: NameSearch, filter: Seq<char>, show_all: bool) -> spec_fn(AliasV) -> Option<Seq<char>> {
    match search {
        NameSearch::Ping => ping_hit(v.lists, guild_id, filter, show_all),
        NameSearch::Membership(u) => membership_hit(v, guild_id, u, filter, show_all),
        NameSearch::Joinable(u) => joinable_hit(v, guild_id, u, filter, show_all),
    }
}

fn window_strings(v: &Vec<String>, start: usize, amount: usize) -> (res: Vec<String>)
    ensures
        strings_view(res@) == window(strings_view(v@), start as int, amount as int),
{
    let mut res: Vec<String> = Vec::new();
    if start >= v.len() {
        assert(strings_view(res@) =~= window(strings_view(v@), start as int, amount as int));
        return res;
    }
    let end = if amount < v.len() - start {
        start + amount
    } else {
        v.len()
    };
    let mut k = start;
    while k < end
        invariant
            start <= k <= end <= v.len(),
            strings_view(res@) == strings_view(v@).subrange(start as int, k as int),
        decreases end - k,
    {
        let ghost before = res@;
        res.push(v[k].clone());
        proof {
            assert(strings_view(res@) =~= strings_view(before).push(v@[k as int]@));
            assert(strings_view(v@).subrange(start as int, k + 1) =~= strings_view(v@).subrange(start as int, k as int).push(v@[k as int]@));
        }
        k += 1;
    }
    assert(strings_view(res@) =~= window(strings_view(v@), start as int, amount as int));
    res
}

impl Database {
    /// All names of a list, in name order.
    pub fn get_list_names(&mut self, list_id: ListId) -> (res: Vec<String>)
        requires
            old(self)@.wf(),
            sql_int(list_id),
        ensures
            final(self)@ == old(self)@,
            strings_view(res@) == old(self)@.aliases.filter_map(name_of_list(list_id)),
    {
        let mut res: Vec<String> = Vec::new();
        let mut i: usize = 0;
        while i < self.aliases.len()
            invariant
                i <= self.aliases.len(),
                strings_view(res@) == self@.aliases.take(i as int).filter_map(name_of_list(list_id)),
            decreases self.aliases.len() - i,
        {
            proof {
                self@.aliases.lemma_filter_map_take_succ(name_of_list(list_id), i as int);
                assert(self@.aliases[i as int] == self.aliases@[i as int]@);
            }
            if self.aliases[i].list_id == list_id {
                let ghost before = res@;
                res.push(self.aliases[i].name.clone());
                proof {
                    assert(strings_view(res@) =~= strings_view(before).push(self.aliases@[i as int].name@));
                }
            }
            i += 1;
        }
        proof {
            assert(self@.aliases.take(self.aliases.len() as int) =~= self@.aliases);
        }
        res
    }

    /// The list of the guild that carries a name (the first in key order).
    pub fn get_list_id_by_name(&mut self, list_name: &str, guild_id: u64) -> (res: Option<ListId>)
        requires
            old(self)@.wf(),
            sql_int(guild_id),
        ensures
            final(self)@ == old(self)@,
            res == list_named(old(self)@, list_name@, guild_id),
    {
        let mut i: usize = 0;
        while i < self.lists.len()
            invariant
                i <= self.lists.len(),
                forall|j: int| 0 <= j < i ==> !named_in_guild(self@, list_name@, guild_id, j),
            decreases self.lists.len() - i,
        {
            let id = self.lists[i].id;
            if self.lists[i].guild_id == guild_id && self.find_alias(id, list_name) {
                proof {
                    lemma_list_named(self@, list_name@, guild_id, i as int);
                }
                return Some(id);
            }
            i += 1;
        }
        None
    }

    /// The lists whose names match the filter, one entry per matching name, in
    /// name order.
    pub fn get_lists_by_search(&mut self, guild_id: u64, filter: &str, show_hidden: bool) -> (res: Result<Vec<PingList>, DbError>)
        requires
            old(self)@.wf(),
        ensures
            final(self)@ == old(self)@,
            !sql_int(guild_id) ==> res is Err && res == Err::<Vec<PingList>, DbError>(DbError::ToSqlConversion),
            sql_int(guild_id) ==> (res matches Ok(v) && v@.map_values(|p: PingList| p@)
                == old(self)@.aliases.filter_map(search_hit(old(self)@.lists, guild_id, filter@, show_hidden))),
    {
        if guild_id > I64_MAX {
            return Err(DbError::ToSqlConversion);
        }
        let ghost f = search_hit(self@.lists, guild_id, filter@, show_hidden);
        let mut res: Vec<PingList> = Vec::new();
        let mut i: usize = 0;
        while i < self.aliases.len()
            invariant
                self@.wf(),
                i <= self.aliases.len(),
                f == search_hit(self@.lists, guild_id, filter@, show_hidden),
                res@.map_values(|p: PingList| p@) == self@.aliases.take(i as int).filter_map(f),
            decreases self.aliases.len() - i,
        {
            proof {
                self@.aliases.lemma_filter_map_take_succ(f, i as int);
                assert(self@.aliases[i as int] == self.aliases@[i as int]@);
            }
            let a = &self.aliases[i];
            if like_filter_exec(a.name.as_str(), filter) {
                if let Some(k) = self.find_list(a.list_id) {
                    let l = &self.lists[k];
                    if l.guild_id == guild_id && (l.visible || show_hidden) {
                        let ghost before = res@;
                        res.push(PingList {
                            id: l.id,
                            guild_id,
                            description: l.description.clone(),
                            visible: l.visible,
                            cooldown: l.cooldown,
                            join_permission: l.join_permission,
                            ping_permission: l.ping_permission,
                        });
                        proof {
                            assert(self@.lists[k as int] == l@);
                            assert(res@.map_values(|p: PingList| p@) =~= before.map_values(|p: PingList| p@).push(l@));
                        }
                    }
                }
            }
            i += 1;
        }
        proof {
            assert(self@.aliases.take(self.aliases.len() as int) =~= self@.aliases);
        }
        Ok(res)
    }

    /// How many lists a search finds.
    pub fn count_lists_by_search(&mut self, guild_id: u64, filter: &str, show_hidden: bool) -> (res: usize)
        requires
            old(self)@.wf(),
        ensures
            final(self)@ == old(self)@,
            !sql_int(guild_id) ==> res == 0,
            sql_int(guild_id) ==> res == old(self)@.lists.filter(
                counted_list(old(self)@.aliases, guild_id, filter@, show_hidden),
            ).len(),
    {
        if guild_id > I64_MAX {
            return 0;
        }
        let ghost p = counted_list(self@.aliases, guild_id, filter@, show_hidden);
        let mut count: usize = 0;
        let mut i: usize = 0;
        while i < self.lists.len()
            invariant
                i <= self.lists.len(),
                p == counted_list(self@.aliases, guild_id, filter@, show_hidden),
                count == self@.lists.take(i as int).filter(p).len(),
                count <= i,
            decreases self.lists.len() - i,
        {
            let l = &self.lists[i];
            let mut hit = false;
            if l.guild_id == guild_id && (l.visible || show_hidden) {
                let mut j: usize = 0;
                while j < self.aliases.len()
                    invariant
                        j <= self.aliases.len(),
                        !hit ==> forall|q: int| 0 <= q < j ==> !((#[trigger] self@.aliases[q]).list_id == l.id
                            && like_filter(self@.aliases[q].name, filter@)),
                        hit ==> exists|q: int| 0 <= q < self@.aliases.len() && (#[trigger] self@.aliases[q]).list_id == l.id
                            && like_filter(self@.aliases[q].name, filter@),
                    decreases self.aliases.len() - j,
                {
                    proof {
                        assert(self@.aliases[j as int] == self.aliases@[j as int]@);
                    }
                    if !hit && self.aliases[j].list_id == l.id && like_filter_exec(self.aliases[j].name.as_str(), filter) {
                        hit = true;
                    }
                    j += 1;
                }
            }
            proof {
                assert(self@.lists[i as int] == l@);
                assert(self@.lists.take(i + 1) =~= self@.lists.take(i as int).push(l@));
                self@.lists.take(i as int).lemma_filter_push(l@, p);
                assert(hit == p(l@));
            }
            if hit {
                count += 1;
            }
            i += 1;
        }
        proof {
            assert(self@.lists.take(self.lists.len() as int) =~= self@.lists);
        }
        count
    }

    /// The names one of the three name searches finds, all of them, in name order.
    fn search_names(&self, guild_id: u64, search: NameSearch, filter: &str, show_all: bool) -> (res: Vec<String>)
        requires
            self@.wf(),
        ensures
            strings_view(res@) == self@.aliases.filter_map(name_search_hit(self@, guild_id, search, filter@, show_all)),
    {
        let ghost f = name_search_hit(self@, guild_id, search, filter@, show_all);
        let mut res: Vec<String> = Vec::new();
        let mut i: usize = 0;
        while i < self.aliases.len()
            invariant
                self@.wf(),
                i <= self.aliases.len(),
                f == name_search_hit(self@, guild_id, search, filter@, show_all),
                strings_view(res@) == self@.aliases.take(i as int).filter_map(f),
            decreases self.aliases.len() - i,
        {
            proof {
                self@.aliases.lemma_filter_map_take_succ(f, i as int);
                assert(self@.aliases[i as int] == self.aliases@[i as int]@);
            }
            let a = &self.aliases[i];
            let mut hit = false;
            if like_filter_exec(a.name.as_str(), filter) {
                if let Some(k) = self.find_list(a.list_id) {
                    let l = &self.lists[k];
                    proof {
                        assert(self@.lists[k as int] == l@);
                    }
                    if l.guild_id == guild_id {
                        hit = match search {
                            NameSearch::Ping => l.ping_permission != PERMISSION::DENY || show_all,
                            NameSearch::Membership(u) => (l.ping_permission != PERMISSION::DENY || show_all)
                                && self.find_membership(u, a.list_id),
                            NameSearch::Joinable(u) => (l.join_permission != PERMISSION::DENY || show_all)
                                && !self.find_membership(u, a.list_id),
                        };
                    }
                }
            }
            proof {
                assert(hit == f(a@) is Some);
            }
            if hit {
                let ghost before = res@;
                res.push(a.name.clone());
                proof {
                    assert(strings_view(res@) =~= strings_view(before).push(a@.name));
                }
            }
            i += 1;
        }
        proof {
            assert(self@.aliases.take(self.aliases.len() as int) =~= self@.aliases);
        }
        res
    }

    /// Names of lists that can be pinged (or of all lists) matching the filter,
    /// `amount` of them from the `start`-th on.
    pub fn get_list_aliases_by_search(
        &mut self,
        guild_id: u64,
        start: usize,
        amount: usize,
        filter: &str,
        show_all: bool,
    ) -> (res: Vec<String>)
        requires
            old(self)@.wf(),
            sql_int(guild_id),
            start as int <= I64_MAX,
            amount as int <= I64_MAX,
        ensures
            final(self)@ == old(self)@,
            strings_view(res@) == window(
                old(self)@.aliases.filter_map(ping_hit(old(self)@.lists, guild_id, filter@, show_all)),
                start as int,
                amount as int,
            ),
    {
        let all = self.search_names(guild_id, NameSearch::Ping, filter, show_all);
        window_strings(&all, start, amount)
    }

    /// Names of the user's lists that can be pinged (or of all the user's
    /// lists) matching the filter, at most `amount` of them.
    pub fn get_list_membership_by_search(
        &mut self,
        guild_id: u64,
        user_id: u64,
        amount: usize,
        filter: &str,
        show_all: bool,
    ) -> (res: Vec<String>)
        requires
            old(self)@.wf(),
            sql_int(guild_id),
            sql_int(user_id),
            amount as int <= I64_MAX,
        ensures
            final(self)@ == old(self)@,
            strings_view(res@) == window(
                old(self)@.aliases.filter_map(membership_hit(old(self)@, guild_id, user_id, filter@, show_all)),
                0,
                amount as int,
            ),
    {
        let all = self.search_names(guild_id, NameSearch::Membership(user_id), filter, show_all);
        window_strings(&all, 0, amount)
    }

    /// Names of joinable lists (or of all lists) the user is not in, matching
    /// the filter, at most `amount` of them.
    pub fn get_list_joinable_by_search(
        &mut self,
        guild_id: u64,
        user_id: u64,
        amount: usize,
        filter: &str,
        show_all: bool,
    ) -> (res: Vec<String>)
        requires
            old(self)@.wf(),
            sql_int(guild_id),
            sql_int(user_id),
            amount as int <= I64_MAX,
        ensures
            final(self)@ == old(self)@,
            strings_view(res@) == window(
                old(self)@.aliases.filter_map(joinable_hit(old(self)@, guild_id, user_id, filter@, show_all)),
                0,
                amount as int,
            ),
    {
        let all = self.search_names(guild_id, NameSearch::Joinable(user_id), filter, show_all);
        window_strings(&all, 0, amount)
    }
}


impl Database {
    /// Whether another list still gets a key.
    pub fn has_list_room(&self) -> (res: bool)
        ensures
            res == list_room(self@.lists),
    {
        let n = self.lists.len();
        proof {
            if n > 0 {
                assert(self@.lists.last() == self.lists@[n - 1]@);
            }
        }
        n == 0 || self.lists[n - 1].id < I64_MAX
    }
}

} // verus!
