use vstd::prelude::*;

use crate::text::str_eq;

verus! {

/// The key of a ping list.
pub type ListId = u64;

/// A three-valued permission. The variants are ordered `NEUTRAL < DENY < ALLOW`,
/// and combining two permissions keeps the larger one.
#[derive(PartialEq, Eq, Structural, Clone, Copy, Debug)]
pub enum PERMISSION {
    NEUTRAL,
    DENY,
    ALLOW,
}

/// The number a permission is stored as: its position in `NEUTRAL < DENY < ALLOW`.
pub open spec fn perm_rank(p: PERMISSION) -> u64 {
    match p {
        PERMISSION::NEUTRAL => 0,
        PERMISSION::DENY => 1,
        PERMISSION::ALLOW => 2,
    }
}

/// The permission stored as the number `v` (defined for `v <= 2`).
pub open spec fn perm_of_rank(v: u64) -> PERMISSION {
    if v == 0 {
        PERMISSION::NEUTRAL
    } else if v == 1 {
        PERMISSION::DENY
    } else {
        PERMISSION::ALLOW
    }
}

/// The larger of two permissions in the order `NEUTRAL < DENY < ALLOW`.
pub open spec fn perm_max(a: PERMISSION, b: PERMISSION) -> PERMISSION {
    if perm_rank(a) >= perm_rank(b) {
        a
    } else {
        b
    }
}

impl PERMISSION {
    pub fn combine(self, other: PERMISSION) -> (res: PERMISSION)
        ensures
            res == perm_max(self, other),
    {
        if self.toint() >= other.toint() {
            self
        } else {
            other
        }
    }

    pub fn toint(self) -> (res: u64)
        ensures
            res == perm_rank(self),
    {
        match self {
            PERMISSION::NEUTRAL => 0,
            PERMISSION::DENY => 1,
            PERMISSION::ALLOW => 2,
        }
    }

    pub fn fromint(value: u64) -> (res: PERMISSION)
        requires
            value <= 2,
        ensures
            res == perm_of_rank(value),
            perm_rank(res) == value,
    {
        match value {
            0 => PERMISSION::NEUTRAL,
            1 => PERMISSION::DENY,
            _ => PERMISSION::ALLOW,
        }
    }
}

/// The strings that `PERMISSION::from_str` accepts.
pub open spec fn perm_str_valid(s: Seq<char>) -> bool {
    ||| s == "0"@
    ||| s == "NEUTRAL"@
    ||| s == "1"@
    ||| s == "DENY"@
    ||| s == "2"@
    ||| s == "ALLOW"@
}

/// The permission a string names: `0`/`NEUTRAL`, `1`/`DENY`, and otherwise
/// (`2`/`ALLOW`) `ALLOW`.
pub open spec fn perm_of_str(s: Seq<char>) -> PERMISSION {
    if s == "0"@ || s == "NEUTRAL"@ {
        PERMISSION::NEUTRAL
    } else if s == "1"@ || s == "DENY"@ {
        PERMISSION::DENY
    } else {
        PERMISSION::ALLOW
    }
}

/// The name of a permission as a command string.
pub open spec fn perm_name(p: PERMISSION) -> Seq<char> {
    match p {
        PERMISSION::NEUTRAL => "NEUTRAL"@,
        PERMISSION::DENY => "DENY"@,
        PERMISSION::ALLOW => "ALLOW"@,
    }
}

pub open spec fn perm_text(p: PERMISSION) -> Seq<char> {
    match p {
        PERMISSION::NEUTRAL => "Neutral"@,
        PERMISSION::DENY => "Deny"@,
        PERMISSION::ALLOW => "Allow"@,
    }
}

impl PERMISSION {
    /// Reads a permission from its number or its upper-case name: `0` or
    /// `NEUTRAL`, `1` or `DENY`, `2` or `ALLOW`; any other string is refused.
    pub fn from_str(value: &str) -> (res: Result<PERMISSION, &str>)
        ensures
            perm_str_valid(value@) ==> res == Ok::<PERMISSION, &str>(perm_of_str(value@)),
            !perm_str_valid(value@) ==> (res matches Err(e) && e@ == "Invalid string"@),
    {
        if str_eq(value, "0") || str_eq(value, "NEUTRAL") {
            Ok(PERMISSION::NEUTRAL)
        } else if str_eq(value, "1") || str_eq(value, "DENY") {
            Ok(PERMISSION::DENY)
        } else if str_eq(value, "2") || str_eq(value, "ALLOW") {
            Ok(PERMISSION::ALLOW)
        } else {
            Err("Invalid string")
        }
    }

    /// The name the permission is shown under.
    pub fn to_text(self) -> (res: &'static str)
        ensures
            res@ == perm_text(self),
    {
        match self {
            PERMISSION::NEUTRAL => "Neutral",
            PERMISSION::DENY => "Deny",
            PERMISSION::ALLOW => "Allow",
        }
    }
}

/// The event an automatic response reacts to; roles are given by their id.
#[derive(PartialEq, Eq, Structural, Clone, Copy, Debug)]
pub enum LOGTRIGGER {
    RoleAdd(u64),
    RoleRemove(u64),
    JoinServer(),
    LeaveServer(),
}

/// The number a trigger is stored as.
pub open spec fn trigger_kind(t: LOGTRIGGER) -> u64 {
    match t {
        LOGTRIGGER::RoleAdd(_) => 0,
        LOGTRIGGER::RoleRemove(_) => 1,
        LOGTRIGGER::JoinServer() => 2,
        LOGTRIGGER::LeaveServer() => 3,
    }
}

/// The trigger stored as kind `t` with reference id `ref_id` (for `t <= 3`).
pub open spec fn trigger_of(t: u64, ref_id: u64) -> LOGTRIGGER {
    if t == 0 {
        LOGTRIGGER::RoleAdd(ref_id)
    } else if t == 1 {
        LOGTRIGGER::RoleRemove(ref_id)
    } else if t == 2 {
        LOGTRIGGER::JoinServer()
    } else {
        LOGTRIGGER::LeaveServer()
    }
}

impl LOGTRIGGER {
    pub fn toint(self) -> (res: u64)
        ensures
            res == trigger_kind(self),
    {
        match self {
            LOGTRIGGER::RoleAdd(_) => 0,
            LOGTRIGGER::RoleRemove(_) => 1,
            LOGTRIGGER::JoinServer() => 2,
            LOGTRIGGER::LeaveServer() => 3,
        }
    }

    pub fn fromint(trigger: u64, ref_id: u64) -> (res: LOGTRIGGER)
        requires
            trigger <= 3,
        ensures
            res == trigger_of(trigger, ref_id),
    {
        match trigger {
            0 => LOGTRIGGER::RoleAdd(ref_id),
            1 => LOGTRIGGER::RoleRemove(ref_id),
            2 => LOGTRIGGER::JoinServer(),
            _ => LOGTRIGGER::LeaveServer(),
        }
    }
}

/// How a trigger is shown: its variant and role, as `{:?}` prints it.
pub open spec fn trigger_text(t: LOGTRIGGER) -> Seq<char> {
    match t {
        LOGTRIGGER::RoleAdd(r) => "RoleAdd("@ + crate::text::dec(r as nat) + ")"@,
        LOGTRIGGER::RoleRemove(r) => "RoleRemove("@ + crate::text::dec(r as nat) + ")"@,
        LOGTRIGGER::JoinServer() => "JoinServer()"@,
        LOGTRIGGER::LeaveServer() => "LeaveServer()"@,
    }
}

impl LOGTRIGGER {
    /// The text a trigger is shown under.
    pub fn to_text(self) -> (res: String)
        ensures
            res@ == trigger_text(self),
    {
        match self {
            LOGTRIGGER::RoleAdd(r) => {
                let mut s = String::from_str("RoleAdd(");
                crate::text::push_dec(&mut s, r as u128);
                s.append(")");
                s
            },
            LOGTRIGGER::RoleRemove(r) => {
                let mut s = String::from_str("RoleRemove(");
                crate::text::push_dec(&mut s, r as u128);
                s.append(")");
                s
            },
            LOGTRIGGER::JoinServer() => String::from_str("JoinServer()"),
            LOGTRIGGER::LeaveServer() => String::from_str("LeaveServer()"),
        }
    }
}

/// A condition on an automatic response: the member has the role with this id.
#[derive(PartialEq, Eq, Structural, Clone, Copy, Debug)]
pub enum LOGCONDITION {
    HasRole(u64),
}

impl LOGCONDITION {
    pub fn toint(self) -> (res: u64)
        ensures
            res == 0,
    {
        match self {
            LOGCONDITION::HasRole(_) => 0,
        }
    }

    pub fn fromint(cond_type: u64, ref_id: u64) -> (res: LOGCONDITION)
        requires
            cond_type == 0,
        ensures
            res == LOGCONDITION::HasRole(ref_id),
    {
        LOGCONDITION::HasRole(ref_id)
    }
}

/// A ping list as listed by a search.
#[derive(Clone, Debug)]
pub struct PingList {
    pub id: u64,
    pub guild_id: u64,
    pub description: String,
    pub cooldown: i64,
    pub join_permission: PERMISSION,
    pub ping_permission: PERMISSION,
    pub visible: bool,
}

/// The outcome of joining or leaving a list.
#[derive(PartialEq, Eq, Structural, Clone, Copy, Debug)]
pub enum JoinResult {
    Succes,
    AlreadyMember,
    ListDoesNotExist,
    MissingPerms,
    BotError,
}

/// The state of a proposal: running (list, votes, start time, channel,
/// message), accepted, denied, or gone.
#[derive(PartialEq, Eq, Structural, Clone, Copy, Debug)]
pub enum ProposalStatus {
    ACTIVE(ListId, usize, u64, u64, u64),
    ACCEPTED(ListId),
    DENIED,
    REMOVED,
}

/// A text reply to a command, shown to the caller alone when `ephemeral`.
#[derive(Clone, Debug)]
pub struct Reply {
    pub text: String,
    pub ephemeral: bool,
}

impl View for Reply {
    type V = (Seq<char>, bool);

    open spec fn view(&self) -> (Seq<char>, bool) {
        (self.text@, self.ephemeral)
    }
}

} // verus!
