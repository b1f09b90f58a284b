use vstd::prelude::*;
use vstd::string::*;

use crate::configure::fields_view;
use crate::database::{Database, guild_of, has_guild_row, sql_int};
use crate::membership::{not_allowed, not_allowed_text};
use crate::structures::Reply;
use crate::text::{
    byte_len, chars_of, contains_u64, dec, lemma_byte_len_concat, parse_u64, parse_u64_spec, push_char, push_dec, utf8_len,
};

verus! {

// ---------------------------------------------------------------------------
// `/log_purge`: the selection menu
// ---------------------------------------------------------------------------

/// The guild's log channel, when one is set.
pub open spec fn log_channel_of(v: crate::database::DbView, guild_id: u64) -> Option<u64> {
    let c = guild_of(v.guilds, guild_id).log_channel;
    if c == 0 {
        None
    } else {
        Some(c)
    }
}

/// The refusals of `/log_purge` before any message is read: the member
/// must be a moderator, the bot must be allowed to manage messages, and the
/// guild must have a log channel. `None` lets the command go on.
pub fn purge_refusal(db: &Database, guild_id: u64, member_admin: bool, bot_manages: bool) -> (res: Option<Reply>)
    requires
        db@.wf(),
        member_admin && bot_manages ==> sql_int(guild_id) && has_guild_row(db@.guilds, guild_id),
    ensures
        !member_admin ==> (res matches Some(r) && r@ == (not_allowed_text(), true)),
        member_admin && !bot_manages ==> (res matches Some(r) && r@ == ("Bot lacks permissions for purge"@, false)),
        member_admin && bot_manages ==> match log_channel_of(db@, guild_id) {
            None => res matches Some(r) && r@ == ("No log channel specified"@, false),
            Some(_) => res is None,
        },
{
    if !member_admin {
        return Some(not_allowed());
    }
    if !bot_manages {
        return Some(Reply { text: String::from_str("Bot lacks permissions for purge"), ephemeral: false });
    }
    match db.get_log_channel(guild_id) {
        Ok(Some(_)) => None,
        _ => Some(Reply { text: String::from_str("No log channel specified"), ephemeral: false }),
    }
}

/// A recently read message of the channel: id, text and time (seconds).
pub struct RecentMessage {
    pub id: u64,
    pub content: String,
    pub timestamp: i64,
}

/// How long ago a message may have been sent to be offered: two weeks less
/// an hour, in seconds (60 * 60 * (24 * 7 * 2 - 1)).
pub open spec fn purge_window() -> int {
    1206000
}

/// The text has a character boundary after its first 80 bytes.
pub open spec fn cut_at_80(c: Seq<char>) -> bool {
    exists|k: int| 0 <= k <= c.len() && byte_len(#[trigger] c.take(k)) == 80
}

/// The first 80 bytes of a text.
pub open spec fn first_80_bytes(c: Seq<char>) -> Seq<char> {
    c.take(choose|k: int| 0 <= k <= c.len() && byte_len(#[trigger] c.take(k)) == 80)
}

/// A message's label in the menu: `Empty`, the whole text up to 100 bytes,
/// or its first 80 bytes.
pub open spec fn purge_label(c: Seq<char>) -> Seq<char> {
    if byte_len(c) == 0 {
        "Empty"@
    } else if byte_len(c) <= 100 {
        c
    } else {
        first_80_bytes(c)
    }
}

pub struct RecentMessageV {
    pub id: u64,
    pub content: Seq<char>,
    pub timestamp: i64,
}

pub open spec fn recent_view(ms: Seq<RecentMessage>) -> Seq<RecentMessageV> {
    ms.map_values(|m: RecentMessage| RecentMessageV { id: m.id, content: m.content@, timestamp: m.timestamp })
}

/// The menu entries (label, message id) of the messages, oldest first,
/// leaving out the ones sent too long before `now`.
pub open spec fn purge_entries(ms: Seq<RecentMessageV>, now: i64) -> Seq<(Seq<char>, Seq<char>)>
    decreases ms.len(),
{
    if ms.len() == 0 {
        Seq::empty()
    } else {
        let m = ms.last();
        let entry = if now - m.timestamp > purge_window() {
            Seq::empty()
        } else {
            seq![(purge_label(m.content), dec(m.id as nat))]
        };
        entry + purge_entries(ms.drop_last(), now)
    }
}

/// The selection menu: its id, entries, and how many may be chosen.
pub struct PurgeMenu {
    pub custom_id: String,
    pub entries: Vec<(String, String)>,
    pub max_values: u8,
}

/// The menu's id names the user the purge is about, if any.
pub open spec fn purge_menu_id(user: Option<(Seq<char>, u64)>) -> Seq<char> {
    match user {
        Some((name, id)) => name + " - "@ + dec(id as nat),
        None => "-"@,
    }
}

pub open spec fn min_u8(a: u8, b: u8) -> u8 {
    if a <= b {
        a
    } else {
        b
    }
}

fn first_80(c: &String) -> (res: String)
    requires
        cut_at_80(c@),
    ensures
        res@ == first_80_bytes(c@),
{
    let chars = chars_of(c.as_str());
    let mut res = String::new();
    let mut n: u128 = 0;
    let mut i: usize = 0;
    let ghost k0 = choose|k: int| 0 <= k <= c@.len() && byte_len(#[trigger] c@.take(k)) == 80;
    proof {
        assert(c@.take(0) =~= Seq::<char>::empty());
    }
    while n < 80 && i < chars.len()
        invariant
            i <= chars.len(),
            chars@ == c@,
            0 <= k0 <= c@.len(),
            byte_len(c@.take(k0)) == 80,
            res@ == c@.take(i as int),
            n == byte_len(c@.take(i as int)),
            i <= k0,
        decreases chars.len() - i,
    {
        proof {
            assert(c@.take(i + 1).drop_last() =~= c@.take(i as int));
            assert(c@.take(i + 1).last() == chars@[i as int]);
            lemma_byte_len_grows(c@, i as int, k0);
        }
        push_char(&mut res, chars[i]);
        let mut one = String::new();
        push_char(&mut one, chars[i]);
        let b = utf8_len(one.as_str());
        proof {
            assert(one@ =~= seq![chars@[i as int]]);
            assert(c@.take(i + 1) =~= c@.take(i as int) + one@);
            lemma_byte_len_concat(c@.take(i as int), one@);
            assert(res@ =~= c@.take(i + 1));
        }
        n = n + b;
        i += 1;
    }
    proof {
        if i < k0 {
            lemma_byte_len_grows(c@, i as int, k0);
        }
        assert(i == k0);
    }
    res
}

/// Byte lengths of prefixes grow with the prefix: taking more characters
/// never gives fewer bytes, and each character adds at least one.
proof fn lemma_byte_len_grows(c: Seq<char>, a: int, b: int)
    requires
        0 <= a <= b <= c.len(),
    ensures
        byte_len(c.take(a)) + (b - a) <= byte_len(c.take(b)),
    decreases b - a,
{
    if a < b {
        lemma_byte_len_grows(c, a, b - 1);
        assert(c.take(b).drop_last() =~= c.take(b - 1));
    }
}

/// Whether the text has a character boundary after its first 80 bytes.
fn has_cut_at_80(c: &String) -> (r: bool)
    ensures
        r == cut_at_80(c@),
{
    let chars = chars_of(c.as_str());
    let mut n: u128 = 0;
    let mut i: usize = 0;
    proof {
        assert(c@.take(0) =~= Seq::<char>::empty());
    }
    while n < 80 && i < chars.len()
        invariant
            i <= chars.len(),
            chars@ == c@,
            n == byte_len(c@.take(i as int)),
            i > 0 ==> byte_len(c@.take(i - 1)) < 80,
        decreases chars.len() - i,
    {
        let mut one = String::new();
        push_char(&mut one, chars[i]);
        let b = utf8_len(one.as_str());
        proof {
            assert(one@ =~= seq![chars@[i as int]]);
            assert(c@.take(i + 1) =~= c@.take(i as int) + one@);
            lemma_byte_len_concat(c@.take(i as int), one@);
        }
        n = n + b;
        i += 1;
    }
    if n == 80 {
        return true;
    }
    proof {
        assert forall|k: int| 0 <= k <= c@.len() implies byte_len(#[trigger] c@.take(k)) != 80 by {
            if n > 80 {
                if k < i {
                    lemma_byte_len_grows(c@, k, i - 1);
                } else {
                    lemma_byte_len_grows(c@, i as int, k);
                }
            } else {
                lemma_byte_len_grows(c@, k, i as int);
            }
        }
    }
    false
}

/// Whether the menu can label every message: a text of more than 100 bytes
/// is cut after its first 80 bytes, which must end on a character.
pub fn purge_messages_valid(messages: &Vec<RecentMessage>) -> (r: bool)
    ensures
        r == forall|i: int| 0 <= i < messages.len() && byte_len((#[trigger] messages@[i]).content@) > 100
            ==> cut_at_80(messages@[i].content@),
{
    let mut i: usize = 0;
    while i < messages.len()
        invariant
            i <= messages.len(),
            forall|k: int| 0 <= k < i && byte_len((#[trigger] messages@[k]).content@) > 100
                ==> cut_at_80(messages@[k].content@),
        decreases messages.len() - i,
    {
        if utf8_len(messages[i].content.as_str()) > 100 && !has_cut_at_80(&messages[i].content) {
            return false;
        }
        i += 1;
    }
    true
}

/// The `/log_purge` menu for the channel's recent messages (as read, newest
/// first) at time `now`, about `user` if one is given; `Err` when there is
/// nothing to offer.
pub fn purge_menu(messages: &Vec<RecentMessage>, now: i64, user: Option<(&str, u64)>) -> (res: Result<PurgeMenu, Reply>)
    requires
        forall|i: int| 0 <= i < messages.len() && byte_len((#[trigger] messages@[i]).content@) > 100
            ==> cut_at_80(messages@[i].content@),
    ensures
        ({
            let entries = purge_entries(recent_view(messages@), now);
            if entries.len() == 0 {
                res matches Err(r) && r@ == ("No recent messages to log or purge"@, true)
            } else {
                res matches Ok(m) && fields_view(m.entries@) == entries
                    && m.custom_id@ == purge_menu_id(match user {
                        Some((n, id)) => Some((n@, id)),
                        None => None,
                    })
                    && m.max_values == min_u8(18, entries.len() as u8)
            }
        }),
{
    let ghost all = recent_view(messages@);
    let mut entries: Vec<(String, String)> = Vec::new();
    let mut i: usize = messages.len();
    proof {
        assert(all.take(messages.len() as int) =~= all);
    }
    while i > 0
        invariant
            i <= messages.len(),
            all == recent_view(messages@),
            forall|j: int| 0 <= j < messages.len() && byte_len((#[trigger] messages@[j]).content@) > 100
                ==> cut_at_80(messages@[j].content@),
            fields_view(entries@) + purge_entries(all.take(i as int), now) == purge_entries(all, now),
        decreases i,
    {
        let m = &messages[i - 1];
        let ghost t = all.take(i as int);
        proof {
            assert(t.drop_last() =~= all.take(i - 1));
            assert(t.last() == all[i - 1]);
            assert(all[i - 1].content == m.content@);
            assert(all[i - 1].timestamp == m.timestamp);
            assert(all[i - 1].id == m.id);
        }
        let ghost before = fields_view(entries@);
        let ghost entry = if now - all[i - 1].timestamp > purge_window() {
            Seq::<(Seq<char>, Seq<char>)>::empty()
        } else {
            seq![(purge_label(all[i - 1].content), dec(all[i - 1].id as nat))]
        };
        assert(purge_entries(t, now) == entry + purge_entries(t.drop_last(), now));
        if (now as i128) - (m.timestamp as i128) <= 1206000 {
            let bytes = utf8_len(m.content.as_str());
            let label = if bytes == 0 {
                String::from_str("Empty")
            } else if bytes <= 100 {
                m.content.clone()
            } else {
                first_80(&m.content)
            };
            let mut id = String::new();
            push_dec(&mut id, m.id as u128);
            entries.push((label, id));
            proof {
                assert(fields_view(entries@) =~= before.push((purge_label(m.content@), dec(m.id as nat))));
                assert(fields_view(entries@) =~= before + entry);
            }
        } else {
            proof {
                assert(before + entry =~= before);
            }
        }
        proof {
            assert(fields_view(entries@) + purge_entries(all.take(i - 1), now) =~= before + (entry + purge_entries(t.drop_last(), now)));
        }
        i -= 1;
    }
    proof {
        assert(all.take(0) =~= Seq::<RecentMessageV>::empty());
        assert(fields_view(entries@) + Seq::<(Seq<char>, Seq<char>)>::empty() =~= fields_view(entries@));
    }
    if entries.len() == 0 {
        return Err(Reply { text: String::from_str("No recent messages to log or purge"), ephemeral: true });
    }
    let l: u8 = #[verifier::truncate] (entries.len() as u8);
    let max_values = if 18 <= l {
        18
    } else {
        l
    };
    let custom_id = match user {
        Some((name, id)) => {
            let mut s = String::from_str(name);
            s.append(" - ");
            push_dec(&mut s, id as u128);
            s
        },
        None => String::from_str("-"),
    };
    Ok(PurgeMenu { custom_id, entries, max_values })
}

// ---------------------------------------------------------------------------
// The purge itself: the log of the chosen messages
// ---------------------------------------------------------------------------

/// Where the purge of a chosen selection goes: `None` for a member who may
/// not purge or a guild without a log channel (nothing happens), or the log
/// channel.
pub fn purge_target(db: &Database, guild_id: u64, member_admin: bool) -> (res: Option<u64>)
    requires
        db@.wf(),
        member_admin ==> sql_int(guild_id) && has_guild_row(db@.guilds, guild_id),
    ensures
        !member_admin ==> res is None,
        member_admin ==> res == log_channel_of(db@, guild_id),
{
    if !member_admin {
        return None;
    }
    match db.get_log_channel(guild_id) {
        Ok(c) => c,
        Err(_) => None,
    }
}

/// The ids the menu's chosen values stand for.
pub fn chosen_ids(values: &Vec<String>) -> (res: Vec<u64>)
    requires
        forall|i: int| 0 <= i < values.len() ==> parse_u64_spec((#[trigger] values@[i])@) is Some,
    ensures
        res@.len() == values@.len(),
        forall|i: int| 0 <= i < values.len() ==> Some(#[trigger] res@[i]) == parse_u64_spec(values@[i]@),
{
    let mut res: Vec<u64> = Vec::new();
    let mut i: usize = 0;
    while i < values.len()
        invariant
            i <= values.len(),
            res@.len() == i,
            forall|j: int| 0 <= j < values.len() ==> parse_u64_spec((#[trigger] values@[j])@) is Some,
            forall|j: int| 0 <= j < i ==> Some(#[trigger] res@[j]) == parse_u64_spec(values@[j]@),
        decreases values.len() - i,
    {
        let id = match parse_u64(values[i].as_str()) {
            Some(id) => id,
            None => 0,
        };
        res.push(id);
        i += 1;
    }
    res
}

/// A message's text in pieces of 970 characters (at least one piece).
pub open spec fn content_chunks(c: Seq<char>) -> Seq<Seq<char>>
    decreases c.len(),
{
    if c.len() <= 970 {
        seq![c]
    } else {
        seq![c.take(970)] + content_chunks(c.skip(970))
    }
}

/// A message's fields in the log: its author over the first piece,
/// `continued...` over the others; a message without text shows
/// `Embed / image`.
pub open spec fn message_fields(author: Seq<char>, c: Seq<char>) -> Seq<(Seq<char>, Seq<char>)> {
    let chunks = content_chunks(c);
    Seq::new(chunks.len(), |k: int| (
        if k == 0 { author } else { "continued..."@ },
        if chunks[k].len() > 0 { chunks[k] } else { "Embed / image"@ },
    ))
}

/// A message of the channel as the log shows it: id, author name, text.
pub struct LoggedMessage {
    pub id: u64,
    pub author: String,
    pub content: String,
}

pub open spec fn logged_fields(ms: Seq<LoggedMessage>, ids: Seq<u64>) -> Seq<(Seq<char>, Seq<char>)>
    decreases ms.len(),
{
    if ms.len() == 0 {
        Seq::empty()
    } else {
        let m = ms.last();
        let rest = logged_fields(ms.drop_last(), ids);
        if ids.contains(m.id) {
            message_fields(m.author@, m.content@) + rest
        } else {
            rest
        }
    }
}

proof fn lemma_chunks_step(c: Seq<char>, i: int)
    requires
        0 <= i < c.len(),
    ensures
        content_chunks(c.skip(i)) == (if c.len() - i > 970 {
            seq![c.subrange(i, i + 970)] + content_chunks(c.skip(i + 970))
        } else {
            seq![c.subrange(i, c.len() as int)]
        }),
{
    let s = c.skip(i);
    if s.len() <= 970 {
        assert(s =~= c.subrange(i, c.len() as int));
    } else {
        assert(s.take(970) =~= c.subrange(i, i + 970));
        assert(s.skip(970) =~= c.skip(i + 970));
    }
}

fn push_message_fields(fields: &mut Vec<(String, String)>, author: &String, content: &String)
    ensures
        fields_view(final(fields)@) == fields_view(old(fields)@) + message_fields(author@, content@),
{
    let chars = chars_of(content.as_str());
    let ghost c = content@;
    let ghost f0 = fields_view(fields@);
    let ghost chunks = content_chunks(c);
    let ghost all = message_fields(author@, c);
    let mut start: usize = 0;
    let mut k: usize = 0;
    let mut more = true;
    proof {
        assert(c.skip(0) =~= c);
        assert(chunks.skip(0) =~= chunks);
    }
    while more
        invariant
            chars@ == c,
            chunks == content_chunks(c),
            all == message_fields(author@, c),
            all.len() == chunks.len(),
            more ==> start == 970 * k && start <= c.len() && (k == 0 || start < c.len())
                && k < chunks.len() && chunks.skip(k as int) == content_chunks(c.skip(start as int)),
            !more ==> k == chunks.len(),
            k <= chunks.len(),
            fields_view(fields@) == f0 + all.take(k as int),
        decreases (if more { c.len() - start + 1 } else { 0 }),
    {
        let end = if chars.len() - start > 970 {
            start + 970
        } else {
            chars.len()
        };
        let mut piece = String::new();
        let mut j = start;
        while j < end
            invariant
                start <= j <= end <= chars.len(),
                chars@ == c,
                piece@ == c.subrange(start as int, j as int),
            decreases end - j,
        {
            push_char(&mut piece, chars[j]);
            assert(c.subrange(start as int, j + 1) =~= c.subrange(start as int, j as int).push(c[j as int]));
            j += 1;
        }
        let title = if k == 0 {
            author.clone()
        } else {
            String::from_str("continued...")
        };
        let text = if piece.as_str().unicode_len() > 0 {
            piece
        } else {
            String::from_str("Embed / image")
        };
        let ghost before = fields_view(fields@);
        proof {
            if start < c.len() {
                lemma_chunks_step(c, start as int);
            } else {
                assert(c.skip(start as int) =~= Seq::<char>::empty());
                assert(c.subrange(start as int, end as int) =~= Seq::<char>::empty());
            }
            assert(chunks[k as int] == chunks.skip(k as int)[0]);
            assert(chunks[k as int] == c.subrange(start as int, end as int));
        }
        fields.push((title, text));
        proof {
            assert(fields_view(fields@) =~= before.push(all[k as int]));
            assert(all.take(k + 1) =~= all.take(k as int).push(all[k as int]));
        }
        if end < chars.len() {
            proof {
                assert(chunks.skip(k + 1) =~= chunks.skip(k as int).drop_first());
                assert(chunks.skip(k as int).drop_first() =~= content_chunks(c.skip(end as int)));
            }
            start = end;
            k += 1;
        } else {
            proof {
                if start < c.len() {
                    assert(chunks.skip(k as int).len() == 1);
                } else {
                    assert(chunks.skip(k as int).len() == 1);
                }
            }
            k += 1;
            more = false;
        }
    }
    proof {
        assert(all.take(k as int) =~= all);
    }
}

/// The log of a purge: its title names the menu, and each chosen message
/// (oldest first) gets its fields.
pub fn purge_log(custom_id: &str, messages: &Vec<LoggedMessage>, ids: &Vec<u64>) -> (res: (String, Vec<(String, String)>))
    ensures
        res.0@ == "Delete log: "@ + custom_id@,
        fields_view(res.1@) == logged_fields(messages@, ids@),
{
    let mut title = String::from_str("Delete log: ");
    title.append(custom_id);
    let mut fields: Vec<(String, String)> = Vec::new();
    let mut i: usize = messages.len();
    proof {
        assert(messages@.take(messages.len() as int) =~= messages@);
    }
    while i > 0
        invariant
            i <= messages.len(),
            fields_view(fields@) + logged_fields(messages@.take(i as int), ids@) == logged_fields(messages@, ids@),
        decreases i,
    {
        let m = &messages[i - 1];
        let ghost t = messages@.take(i as int);
        proof {
            assert(t.drop_last() =~= messages@.take(i - 1));
            assert(t.last() == messages@[i - 1]);
        }
        let ghost before = fields_view(fields@);
        if contains_u64(ids, m.id) {
            push_message_fields(&mut fields, &m.author, &m.content);
        }
        proof {
            assert(fields_view(fields@) + logged_fields(messages@.take(i - 1), ids@) =~= before + logged_fields(t, ids@));
        }
        i -= 1;
    }
    proof {
        assert(messages@.take(0) =~= Seq::<LoggedMessage>::empty());
        assert(fields_view(fields@) + Seq::<(Seq<char>, Seq<char>)>::empty() =~= fields_view(fields@));
    }
    (title, fields)
}

} // verus!
