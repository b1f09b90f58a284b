use vstd::prelude::*;

use crate::database::{
    ChannelRow, Database, DbError, DbView, GuildRow, I64_MAX, SettingRow, has_guild_row, sql_int,
};
use crate::structures::PERMISSION;

verus! {

// ---------------------------------------------------------------------------
// Role and user settings (the two tables have the same columns)
// ---------------------------------------------------------------------------

/// A row for the role or user exists (the id is unique across guilds).
pub open spec fn setting_present(rows: Seq<SettingRow>, key: u64) -> bool {
    exists|j: int| 0 <= j < rows.len() && (#[trigger] rows[j]).subject_id == key
}

/// The row a role or user starts with.
pub open spec fn default_setting(guild_id: u64, key: u64) -> SettingRow {
    SettingRow {
        guild_id,
        subject_id: key,
        propose_permission: PERMISSION::NEUTRAL,
        ping_permission: PERMISSION::NEUTRAL,
        ignore_gbcooldown: false,
    }
}

/// `INSERT OR IGNORE` of the default row: nothing changes if the id has a row.
pub open spec fn ensure_setting(rows: Seq<SettingRow>, guild_id: u64, key: u64) -> Seq<SettingRow> {
    if setting_present(rows, key) {
        rows
    } else {
        rows.push(default_setting(guild_id, key))
    }
}

/// A column of the settings tables with the value to write into it.
#[derive(PartialEq, Eq, Structural, Clone, Copy, Debug)]
pub enum SettingField {
    Propose(PERMISSION),
    Ping(PERMISSION),
    IgnoreCooldown(bool),
}

pub open spec fn setting_with(r: SettingRow, f: SettingField) -> SettingRow {
    match f {
        SettingField::Propose(p) => SettingRow { propose_permission: p, ..r },
        SettingField::Ping(p) => SettingRow { ping_permission: p, ..r },
        SettingField::IgnoreCooldown(b) => SettingRow { ignore_gbcooldown: b, ..r },
    }
}

/// `UPDATE .. SET <f> WHERE <id> = key AND guild_id = guild`.
pub open spec fn update_settings(rows: Seq<SettingRow>, guild_id: u64, key: u64, f: SettingField) -> Seq<SettingRow> {
    rows.map_values(|r: SettingRow| if r.subject_id == key && r.guild_id == guild_id {
        setting_with(r, f)
    } else {
        r
    })
}

pub open spec fn has_setting(rows: Seq<SettingRow>, guild_id: u64, key: u64) -> bool {
    exists|j: int| 0 <= j < rows.len() && (#[trigger] rows[j]).subject_id == key && rows[j].guild_id == guild_id
}

pub open spec fn first_setting(rows: Seq<SettingRow>, guild_id: u64, key: u64, i: int) -> bool {
    &&& 0 <= i < rows.len()
    &&& rows[i].subject_id == key
    &&& rows[i].guild_id == guild_id
    &&& forall|j: int| 0 <= j < i ==> !((#[trigger] rows[j]).subject_id == key && rows[j].guild_id == guild_id)
}

/// The row of the role or user in the guild (the first one a query meets).
pub open spec fn setting_of(rows: Seq<SettingRow>, guild_id: u64, key: u64) -> SettingRow {
    rows[choose|i: int| first_setting(rows, guild_id, key, i)]
}

/// A settings row can be made for the id: it has one, or its guild is known.
pub open spec fn setting_insertable(v: DbView, rows: Seq<SettingRow>, guild_id: u64, key: u64) -> bool {
    setting_present(rows, key) || has_guild_row(v.guilds, guild_id)
}

/// After making sure the id has a row, that row belongs to the guild.
pub open spec fn setting_readable(v: DbView, rows: Seq<SettingRow>, guild_id: u64, key: u64) -> bool {
    if setting_present(rows, key) {
        has_setting(rows, guild_id, key)
    } else {
        has_guild_row(v.guilds, guild_id)
    }
}

pub proof fn lemma_first_setting(rows: Seq<SettingRow>, guild_id: u64, key: u64, i: int)
    requires
        first_setting(rows, guild_id, key, i),
    ensures
        setting_of(rows, guild_id, key) == rows[i],
{
    let k = choose|k: int| first_setting(rows, guild_id, key, k);
    assert(first_setting(rows, guild_id, key, k));
    if k < i {
        assert(!(rows[k].subject_id == key && rows[k].guild_id == guild_id));
    } else if i < k {
        assert(!(rows[i].subject_id == key && rows[i].guild_id == guild_id));
    }
}

pub(crate) fn key_present(rows: &Vec<SettingRow>, key: u64) -> (res: bool)
    ensures
        res == setting_present(rows@, key),
{
    let mut i: usize = 0;
    while i < rows.len()
        invariant
            i <= rows.len(),
            forall|j: int| 0 <= j < i ==> (#[trigger] rows@[j]).subject_id != key,
        decreases rows.len() - i,
    {
        if rows[i].subject_id == key {
            return true;
        }
        i += 1;
    }
    false
}

fn find_setting(rows: &Vec<SettingRow>, guild_id: u64, key: u64) -> (res: Option<usize>)
    ensures
        res matches Some(i) ==> first_setting(rows@, guild_id, key, i as int)
            && setting_of(rows@, guild_id, key) == rows@[i as int],
        res is None ==> !has_setting(rows@, guild_id, key),
{
    let mut i: usize = 0;
    while i < rows.len()
        invariant
            i <= rows.len(),
            forall|j: int| 0 <= j < i ==> !((#[trigger] rows@[j]).subject_id == key && rows@[j].guild_id == guild_id),
        decreases rows.len() - i,
    {
        if rows[i].subject_id == key && rows[i].guild_id == guild_id {
            proof {
                lemma_first_setting(rows@, guild_id, key, i as int);
            }
            return Some(i);
        }
        i += 1;
    }
    None
}

/// The key has no row, or has one in the guild.
pub(crate) fn key_in_guild(rows: &Vec<SettingRow>, guild_id: u64, key: u64) -> (res: bool)
    ensures
        res == (setting_present(rows@, key) ==> has_setting(rows@, guild_id, key)),
{
    if !key_present(rows, key) {
        return true;
    }
    match find_setting(rows, guild_id, key) {
        Some(i) => {
            assert(rows@[i as int].subject_id == key && rows@[i as int].guild_id == guild_id);
            true
        },
        None => false,
    }
}

fn update_setting_rows(rows: &mut Vec<SettingRow>, guild_id: u64, key: u64, f: SettingField)
    ensures
        final(rows)@ == update_settings(old(rows)@, guild_id, key, f),
{
    let ghost old_rows = rows@;
    let mut i: usize = 0;
    while i < rows.len()
        invariant
            i <= rows.len(),
            rows.len() == old_rows.len(),
            forall|j: int| 0 <= j < i ==> (#[trigger] rows@[j]) == (if old_rows[j].subject_id == key
                && old_rows[j].guild_id == guild_id {
                setting_with(old_rows[j], f)
            } else {
                old_rows[j]
            }),
            forall|j: int| i <= j < rows.len() ==> (#[trigger] rows@[j]) == old_rows[j],
        decreases rows.len() - i,
    {
        if rows[i].subject_id == key && rows[i].guild_id == guild_id {
            let mut r = rows[i];
            match f {
                SettingField::Propose(p) => { r.propose_permission = p; },
                SettingField::Ping(p) => { r.ping_permission = p; },
                SettingField::IgnoreCooldown(b) => { r.ignore_gbcooldown = b; },
            }
            rows.set(i, r);
        }
        i += 1;
    }
    assert(rows@ =~= update_settings(old_rows, guild_id, key, f));
}

impl DbView {
    pub open spec fn with_roles(self, roles: Seq<SettingRow>) -> DbView {
        DbView { roles, ..self }
    }

    pub open spec fn with_users(self, users: Seq<SettingRow>) -> DbView {
        DbView { users, ..self }
    }

    pub open spec fn with_channels(self, channels: Seq<ChannelRow>) -> DbView {
        DbView { channels, ..self }
    }
}

/// Settings rows rewritten without touching their guilds and ids keep the
/// store well formed; so does an added row of a known guild.
pub proof fn lemma_settings_rewritten(old: Seq<SettingRow>, new: Seq<SettingRow>, guilds: Seq<GuildRow>)
    requires
        forall|i: int| 0 <= i < old.len() ==> has_guild_row(guilds, #[trigger] old[i].guild_id),
        forall|i: int| 0 <= i < old.len() ==> sql_int(#[trigger] old[i].subject_id),
        new.len() >= old.len(),
        forall|i: int| 0 <= i < old.len() ==> (#[trigger] new[i]).guild_id == old[i].guild_id
            && new[i].subject_id == old[i].subject_id,
        forall|i: int| old.len() <= i < new.len() ==> has_guild_row(guilds, (#[trigger] new[i]).guild_id)
            && sql_int(new[i].subject_id),
    ensures
        forall|i: int| 0 <= i < new.len() ==> has_guild_row(guilds, #[trigger] new[i].guild_id),
        forall|i: int| 0 <= i < new.len() ==> sql_int(#[trigger] new[i].subject_id),
{
    assert forall|i: int| 0 <= i < new.len() implies has_guild_row(guilds, #[trigger] new[i].guild_id) by {
        if i < old.len() {
            assert(has_guild_row(guilds, old[i].guild_id));
        }
    }
    assert forall|i: int| 0 <= i < new.len() implies sql_int(#[trigger] new[i].subject_id) by {
        if i < old.len() {
            assert(sql_int(old[i].subject_id));
        }
    }
}

impl Database {
    fn ensure_role_present(&mut self, guild_id: u64, role_id: u64) -> (res: Result<(), DbError>)
        requires
            old(self)@.wf(),
        ensures
            final(self)@.wf(),
            !(sql_int(guild_id) && sql_int(role_id)) ==> res == Err::<(), DbError>(DbError::ToSqlConversion)
                && final(self)@ == old(self)@,
            sql_int(guild_id) && sql_int(role_id) && !setting_insertable(old(self)@, old(self)@.roles, guild_id, role_id)
                ==> res == Err::<(), DbError>(DbError::ForeignKeyConstraint) && final(self)@ == old(self)@,
            sql_int(guild_id) && sql_int(role_id) && setting_insertable(old(self)@, old(self)@.roles, guild_id, role_id)
                ==> res is Ok && final(self)@ == old(self)@.with_roles(ensure_setting(old(self)@.roles, guild_id, role_id)),
    {
        if guild_id > I64_MAX || role_id > I64_MAX {
            return Err(DbError::ToSqlConversion);
        }
        if key_present(&self.role_settings, role_id) {
            return Ok(());
        }
        if !self.guild_known(guild_id) {
            return Err(DbError::ForeignKeyConstraint);
        }
        let ghost old_v = self@;
        self.role_settings.push(SettingRow {
            guild_id,
            subject_id: role_id,
            propose_permission: PERMISSION::NEUTRAL,
            ping_permission: PERMISSION::NEUTRAL,
            ignore_gbcooldown: false,
        });
        proof {
            lemma_settings_rewritten(old_v.roles, self@.roles, old_v.guilds);
            assert(self@ == old_v.with_roles(ensure_setting(old_v.roles, guild_id, role_id)));
        }
        Ok(())
    }

    fn set_role_field(&mut self, guild_id: u64, role_id: u64, f: SettingField) -> (res: Result<(), DbError>)
        requires
            old(self)@.wf(),
        ensures
            final(self)@.wf(),
            !(sql_int(guild_id) && sql_int(role_id)) ==> res == Err::<(), DbError>(DbError::ToSqlConversion)
                && final(self)@ == old(self)@,
            sql_int(guild_id) && sql_int(role_id) && !setting_insertable(old(self)@, old(self)@.roles, guild_id, role_id)
                ==> res == Err::<(), DbError>(DbError::ForeignKeyConstraint) && final(self)@ == old(self)@,
            sql_int(guild_id) && sql_int(role_id) && setting_insertable(old(self)@, old(self)@.roles, guild_id, role_id)
                ==> res is Ok && final(self)@ == old(self)@.with_roles(
                update_settings(ensure_setting(old(self)@.roles, guild_id, role_id), guild_id, role_id, f),
            ),
    {
        match self.ensure_role_present(guild_id, role_id) {
            Err(e) => Err(e),
            Ok(()) => {
                let ghost mid = self@;
                update_setting_rows(&mut self.role_settings, guild_id, role_id, f);
                proof {
                    lemma_settings_rewritten(mid.roles, self@.roles, mid.guilds);
                }
                Ok(())
            },
        }
    }

    pub fn set_role_canpropose(&mut self, guild_id: u64, role_id: u64, perm: PERMISSION) -> (res: Result<(), DbError>)
        requires
            old(self)@.wf(),
        ensures
            final(self)@.wf(),
            !(sql_int(guild_id) && sql_int(role_id)) ==> res == Err::<(), DbError>(DbError::ToSqlConversion)
                && final(self)@ == old(self)@,
            sql_int(guild_id) && sql_int(role_id) && !setting_insertable(old(self)@, old(self)@.roles, guild_id, role_id)
                ==> res == Err::<(), DbError>(DbError::ForeignKeyConstraint) && final(self)@ == old(self)@,
            sql_int(guild_id) && sql_int(role_id) && setting_insertable(old(self)@, old(self)@.roles, guild_id, role_id)
                ==> res is Ok && final(self)@ == old(self)@.with_roles(
                update_settings(ensure_setting(old(self)@.roles, guild_id, role_id), guild_id, role_id, SettingField::Propose(perm)),
            ),
    {
        self.set_role_field(guild_id, role_id, SettingField::Propose(perm))
    }

    pub fn set_role_canping(&mut self, guild_id: u64, role_id: u64, perm: PERMISSION) -> (res: Result<(), DbError>)
        requires
            old(self)@.wf(),
        ensures
            final(self)@.wf(),
            !(sql_int(guild_id) && sql_int(role_id)) ==> res == Err::<(), DbError>(DbError::ToSqlConversion)
                && final(self)@ == old(self)@,
            sql_int(guild_id) && sql_int(role_id) && !setting_insertable(old(self)@, old(self)@.roles, guild_id, role_id)
                ==> res == Err::<(), DbError>(DbError::ForeignKeyConstraint) && final(self)@ == old(self)@,
            sql_int(guild_id) && sql_int(role_id) && setting_insertable(old(self)@, old(self)@.roles, guild_id, role_id)
                ==> res is Ok && final(self)@ == old(self)@.with_roles(
                update_settings(ensure_setting(old(self)@.roles, guild_id, role_id), guild_id, role_id, SettingField::Ping(perm)),
            ),
    {
        self.set_role_field(guild_id, role_id, SettingField::Ping(perm))
    }

    pub fn set_role_ignore_cooldown(&mut self, guild_id: u64, role_id: u64, deny: bool) -> (res: Result<(), DbError>)
        requires
            old(self)@.wf(),
        ensures
            final(self)@.wf(),
            !(sql_int(guild_id) && sql_int(role_id)) ==> res == Err::<(), DbError>(DbError::ToSqlConversion)
                && final(self)@ == old(self)@,
            sql_int(guild_id) && sql_int(role_id) && !setting_insertable(old(self)@, old(self)@.roles, guild_id, role_id)
                ==> res == Err::<(), DbError>(DbError::ForeignKeyConstraint) && final(self)@ == old(self)@,
            sql_int(guild_id) && sql_int(role_id) && setting_insertable(old(self)@, old(self)@.roles, guild_id, role_id)
                ==> res is Ok && final(self)@ == old(self)@.with_roles(
                update_settings(ensure_setting(old(self)@.roles, guild_id, role_id), guild_id, role_id, SettingField::IgnoreCooldown(deny)),
            ),
    {
        self.set_role_field(guild_id, role_id, SettingField::IgnoreCooldown(deny))
    }

    /// A role's propose permission, ping permission, and whether it skips the
    /// shared cooldown; a role without a row gets the default row first.
    pub fn get_role_permissions(&mut self, guild_id: u64, role_id: u64) -> (res: (PERMISSION, PERMISSION, bool))
        requires
            old(self)@.wf(),
            sql_int(guild_id),
            sql_int(role_id),
            setting_readable(old(self)@, old(self)@.roles, guild_id, role_id),
        ensures
            final(self)@.wf(),
            final(self)@ == old(self)@.with_roles(ensure_setting(old(self)@.roles, guild_id, role_id)),
            res == ({
                let r = setting_of(final(self)@.roles, guild_id, role_id);
                (r.propose_permission, r.ping_permission, r.ignore_gbcooldown)
            }),
    {
        let _ = self.ensure_role_present(guild_id, role_id);
        proof {
            let rows = self@.roles;
            if !setting_present(old(self)@.roles, role_id) {
                assert(rows[rows.len() - 1].subject_id == role_id);
            }
        }
        let i = find_setting(&self.role_settings, guild_id, role_id).unwrap();
        let r = self.role_settings[i];
        (r.propose_permission, r.ping_permission, r.ignore_gbcooldown)
    }

    fn ensure_user_present(&mut self, guild_id: u64, user_id: u64)
        requires
            old(self)@.wf(),
            sql_int(guild_id),
            sql_int(user_id),
            setting_insertable(old(self)@, old(self)@.users, guild_id, user_id),
        ensures
            final(self)@.wf(),
            final(self)@ == old(self)@.with_users(ensure_setting(old(self)@.users, guild_id, user_id)),
    {
        if key_present(&self.user_settings, user_id) {
            return;
        }
        let ghost old_v = self@;
        self.user_settings.push(SettingRow {
            guild_id,
            subject_id: user_id,
            propose_permission: PERMISSION::NEUTRAL,
            ping_permission: PERMISSION::NEUTRAL,
            ignore_gbcooldown: false,
        });
        proof {
            lemma_settings_rewritten(old_v.users, self@.users, old_v.guilds);
            assert(self@ == old_v.with_users(ensure_setting(old_v.users, guild_id, user_id)));
        }
    }

    fn set_user_field(&mut self, guild_id: u64, user_id: u64, f: SettingField)
        requires
            old(self)@.wf(),
            sql_int(guild_id),
            sql_int(user_id),
            setting_insertable(old(self)@, old(self)@.users, guild_id, user_id),
        ensures
            final(self)@.wf(),
            final(self)@ == old(self)@.with_users(
                update_settings(ensure_setting(old(self)@.users, guild_id, user_id), guild_id, user_id, f),
            ),
    {
        self.ensure_user_present(guild_id, user_id);
        let ghost mid = self@;
        update_setting_rows(&mut self.user_settings, guild_id, user_id, f);
        proof {
            lemma_settings_rewritten(mid.users, self@.users, mid.guilds);
        }
    }

    pub fn set_user_propose(&mut self, guild_id: u64, user_id: u64, perm: PERMISSION)
        requires
            old(self)@.wf(),
            sql_int(guild_id),
            sql_int(user_id),
            setting_insertable(old(self)@, old(self)@.users, guild_id, user_id),
        ensures
            final(self)@.wf(),
            final(self)@ == old(self)@.with_users(
                update_settings(ensure_setting(old(self)@.users, guild_id, user_id), guild_id, user_id, SettingField::Propose(perm)),
            ),
    {
        self.set_user_field(guild_id, user_id, SettingField::Propose(perm))
    }

    pub fn set_user_canping(&mut self, guild_id: u64, user_id: u64, perm: PERMISSION)
        requires
            old(self)@.wf(),
            sql_int(guild_id),
            sql_int(user_id),
            setting_insertable(old(self)@, old(self)@.users, guild_id, user_id),
        ensures
            final(self)@.wf(),
            final(self)@ == old(self)@.with_users(
                update_settings(ensure_setting(old(self)@.users, guild_id, user_id), guild_id, user_id, SettingField::Ping(perm)),
            ),
    {
        self.set_user_field(guild_id, user_id, SettingField::Ping(perm))
    }

    pub fn set_user_cooldown(&mut self, guild_id: u64, user_id: u64, deny: bool)
        requires
            old(self)@.wf(),
            sql_int(guild_id),
            sql_int(user_id),
            setting_insertable(old(self)@, old(self)@.users, guild_id, user_id),
        ensures
            final(self)@.wf(),
            final(self)@ == old(self)@.with_users(
                update_settings(ensure_setting(old(self)@.users, guild_id, user_id), guild_id, user_id, SettingField::IgnoreCooldown(deny)),
            ),
    {
        self.set_user_field(guild_id, user_id, SettingField::IgnoreCooldown(deny))
    }

    /// A user's propose permission, ping permission, and whether the user
    /// skips the shared cooldown; a user without a row gets the default row
    /// first.
    pub fn get_user_permissions(&mut self, guild_id: u64, user_id: u64) -> (res: (PERMISSION, PERMISSION, bool))
        requires
            old(self)@.wf(),
            sql_int(guild_id),
            sql_int(user_id),
            setting_readable(old(self)@, old(self)@.users, guild_id, user_id),
        ensures
            final(self)@.wf(),
            final(self)@ == old(self)@.with_users(ensure_setting(old(self)@.users, guild_id, user_id)),
            res == ({
                let r = setting_of(final(self)@.users, guild_id, user_id);
                (r.propose_permission, r.ping_permission, r.ignore_gbcooldown)
            }),
    {
        self.ensure_user_present(guild_id, user_id);
        proof {
            let rows = self@.users;
            if !setting_present(old(self)@.users, user_id) {
                assert(rows[rows.len() - 1].subject_id == user_id);
            }
        }
        let i = find_setting(&self.user_settings, guild_id, user_id).unwrap();
        let r = self.user_settings[i];
        (r.propose_permission, r.ping_permission, r.ignore_gbcooldown)
    }
}

// ---------------------------------------------------------------------------
// Channel settings
// ---------------------------------------------------------------------------

pub open spec fn channel_present(rows: Seq<ChannelRow>, channel_id: u64) -> bool {
    exists|j: int| 0 <= j < rows.len() && (#[trigger] rows[j]).channel_id == channel_id
}

/// The row a channel starts with.
pub open spec fn default_channel(channel_id: u64) -> ChannelRow {
    ChannelRow {
        channel_id,
        public_commands: false,
        override_mentioning: PERMISSION::NEUTRAL,
        propose_permission: PERMISSION::NEUTRAL,
    }
}

pub open spec fn ensure_channel(rows: Seq<ChannelRow>, channel_id: u64) -> Seq<ChannelRow> {
    if channel_present(rows, channel_id) {
        rows
    } else {
        rows.push(default_channel(channel_id))
    }
}

/// A column of `channel_settings` with the value to write into it.
#[derive(PartialEq, Eq, Structural, Clone, Copy, Debug)]
pub enum ChannelField {
    PublicCommands(bool),
    Mentioning(PERMISSION),
    Proposing(PERMISSION),
}

pub open spec fn channel_with(r: ChannelRow, f: ChannelField) -> ChannelRow {
    match f {
        ChannelField::PublicCommands(b) => ChannelRow { public_commands: b, ..r },
        ChannelField::Mentioning(p) => ChannelRow { override_mentioning: p, ..r },
        ChannelField::Proposing(p) => ChannelRow { propose_permission: p, ..r },
    }
}

pub open spec fn update_channels(rows: Seq<ChannelRow>, channel_id: u64, f: ChannelField) -> Seq<ChannelRow> {
    rows.map_values(|r: ChannelRow| if r.channel_id == channel_id { channel_with(r, f) } else { r })
}

pub open spec fn first_channel(rows: Seq<ChannelRow>, channel_id: u64, i: int) -> bool {
    &&& 0 <= i < rows.len()
    &&& rows[i].channel_id == channel_id
    &&& forall|j: int| 0 <= j < i ==> (#[trigger] rows[j]).channel_id != channel_id
}

/// The row of a channel (the first one a query meets).
pub open spec fn channel_of(rows: Seq<ChannelRow>, channel_id: u64) -> ChannelRow {
    rows[choose|i: int| first_channel(rows, channel_id, i)]
}

pub proof fn lemma_first_channel(rows: Seq<ChannelRow>, channel_id: u64, i: int)
    requires
        first_channel(rows, channel_id, i),
    ensures
        channel_of(rows, channel_id) == rows[i],
{
    let k = choose|k: int| first_channel(rows, channel_id, k);
    assert(first_channel(rows, channel_id, k));
    if k < i {
        assert(rows[k].channel_id != channel_id);
    } else if i < k {
        assert(rows[i].channel_id != channel_id);
    }
}

impl Database {
    /// Whether the guild is registered.
    pub fn guild_known(&self, guild_id: u64) -> (res: bool)
        ensures
            res == has_guild_row(self@.guilds, guild_id),
    {
        let mut i: usize = 0;
        while i < self.guilds.len()
            invariant
                i <= self.guilds.len(),
                forall|j: int| 0 <= j < i ==> (#[trigger] self@.guilds[j]).id != guild_id,
            decreases self.guilds.len() - i,
        {
            if self.guilds[i].id == guild_id {
                return true;
            }
            i += 1;
        }
        false
    }

    fn find_channel(&self, channel_id: u64) -> (res: Option<usize>)
        ensures
            res matches Some(i) ==> first_channel(self@.channels, channel_id, i as int)
                && channel_of(self@.channels, channel_id) == self@.channels[i as int],
            res is None ==> !channel_present(self@.channels, channel_id),
    {
        let mut i: usize = 0;
        while i < self.channel_settings.len()
            invariant
                i <= self.channel_settings.len(),
                forall|j: int| 0 <= j < i ==> (#[trigger] self@.channels[j]).channel_id != channel_id,
            decreases self.channel_settings.len() - i,
        {
            if self.channel_settings[i].channel_id == channel_id {
                proof {
                    lemma_first_channel(self@.channels, channel_id, i as int);
                }
                return Some(i);
            }
            i += 1;
        }
        None
    }

    fn ensure_channel_present(&mut self, channel_id: u64)
        requires
            old(self)@.wf(),
            sql_int(channel_id),
        ensures
            final(self)@.wf(),
            final(self)@ == old(self)@.with_channels(ensure_channel(old(self)@.channels, channel_id)),
    {
        if self.find_channel(channel_id).is_some() {
            return;
        }
        let ghost old_v = self@;
        self.channel_settings.push(ChannelRow {
            channel_id,
            public_commands: false,
            override_mentioning: PERMISSION::NEUTRAL,
            propose_permission: PERMISSION::NEUTRAL,
        });
        proof {
            let n = self@;
            assert(n == old_v.with_channels(ensure_channel(old_v.channels, channel_id)));
            assert forall|i: int| 0 <= i < n.channels.len() implies sql_int(#[trigger] n.channels[i].channel_id) by {
                if i < old_v.channels.len() {
                    assert(n.channels[i] == old_v.channels[i]);
                }
            }
        }
    }

    fn set_channel_field(&mut self, channel_id: u64, f: ChannelField)
        requires
            old(self)@.wf(),
            sql_int(channel_id),
        ensures
            final(self)@.wf(),
            final(self)@ == old(self)@.with_channels(
                update_channels(ensure_channel(old(self)@.channels, channel_id), channel_id, f),
            ),
    {
        self.ensure_channel_present(channel_id);
        let ghost mid = self@;
        let mut i: usize = 0;
        while i < self.channel_settings.len()
            invariant
                i <= self.channel_settings.len(),
                self.channel_settings.len() == mid.channels.len(),
                self@ == mid.with_channels(self.channel_settings@),
                forall|j: int| 0 <= j < i ==> (#[trigger] self.channel_settings@[j]) == (if mid.channels[j].channel_id == channel_id {
                    channel_with(mid.channels[j], f)
                } else {
                    mid.channels[j]
                }),
                forall|j: int| i <= j < self.channel_settings.len() ==> (#[trigger] self.channel_settings@[j]) == mid.channels[j],
            decreases self.channel_settings.len() - i,
        {
            if self.channel_settings[i].channel_id == channel_id {
                let mut r = self.channel_settings[i];
                match f {
                    ChannelField::PublicCommands(b) => { r.public_commands = b; },
                    ChannelField::Mentioning(p) => { r.override_mentioning = p; },
                    ChannelField::Proposing(p) => { r.propose_permission = p; },
                }
                self.channel_settings.set(i, r);
            }
            i += 1;
        }
        proof {
            assert(self@.channels =~= update_channels(mid.channels, channel_id, f));
            let n = self@;
            assert forall|i: int| 0 <= i < n.channels.len() implies sql_int(#[trigger] n.channels[i].channel_id) by {
                assert(n.channels[i].channel_id == mid.channels[i].channel_id);
            }
        }
    }

    pub fn set_channel_mentioning(&mut self, channel_id: u64, value: PERMISSION)
        requires
            old(self)@.wf(),
            sql_int(channel_id),
        ensures
            final(self)@.wf(),
            final(self)@ == old(self)@.with_channels(
                update_channels(ensure_channel(old(self)@.channels, channel_id), channel_id, ChannelField::Mentioning(value)),
            ),
    {
        self.set_channel_field(channel_id, ChannelField::Mentioning(value))
    }

    pub fn set_channel_proposing(&mut self, channel_id: u64, value: PERMISSION)
        requires
            old(self)@.wf(),
            sql_int(channel_id),
        ensures
            final(self)@.wf(),
            final(self)@ == old(self)@.with_channels(
                update_channels(ensure_channel(old(self)@.channels, channel_id), channel_id, ChannelField::Proposing(value)),
            ),
    {
        self.set_channel_field(channel_id, ChannelField::Proposing(value))
    }

    pub fn set_channel_public_visible(&mut self, channel_id: u64, value: bool)
        requires
            old(self)@.wf(),
            sql_int(channel_id),
        ensures
            final(self)@.wf(),
            final(self)@ == old(self)@.with_channels(
                update_channels(ensure_channel(old(self)@.channels, channel_id), channel_id, ChannelField::PublicCommands(value)),
            ),
    {
        self.set_channel_field(channel_id, ChannelField::PublicCommands(value))
    }

    /// Whether commands are shown publicly in the channel, its mentioning rule
    /// and its proposing rule; a channel without a row gets the default row
    /// first.
    pub fn get_channel_permissions(&mut self, _guild_id: u64, channel_id: u64) -> (res: (bool, PERMISSION, PERMISSION))
        requires
            old(self)@.wf(),
            sql_int(channel_id),
        ensures
            final(self)@.wf(),
            final(self)@ == old(self)@.with_channels(ensure_channel(old(self)@.channels, channel_id)),
            res == ({
                let r = channel_of(final(self)@.channels, channel_id);
                (r.public_commands, r.override_mentioning, r.propose_permission)
            }),
    {
        self.ensure_channel_present(channel_id);
        proof {
            let rows = self@.channels;
            if !channel_present(old(self)@.channels, channel_id) {
                assert(rows[rows.len() - 1].channel_id == channel_id);
            }
        }
        let i = self.find_channel(channel_id).unwrap();
        let r = self.channel_settings[i];
        (r.public_commands, r.override_mentioning, r.propose_permission)
    }
}

} // verus!
