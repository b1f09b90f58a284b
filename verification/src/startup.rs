use vstd::prelude::*;
use vstd::string::*;

use crate::database::{Database, DbView, default_guild, has_guild_row, sql_int, I64_MAX};
use crate::text::{chars_of, parse_u64, parse_u64_spec, str_eq};

verus! {

// ---------------------------------------------------------------------------
// Opening the store
// ---------------------------------------------------------------------------

/// What opening the store does with the schema version it finds.
#[derive(PartialEq, Eq, Structural, Clone, Copy, Debug)]
pub enum SchemaStep {
    /// Version 2: the schema is current.
    Ready,
    /// Version 1: proposals get their channel and message columns.
    Upgrade,
    /// Version 0: a new store; the tables are made.
    Create,
    /// Any other version comes from a later release and is refused.
    Unsupported,
}

pub open spec fn schema_step_spec(version: i64) -> SchemaStep {
    if version == 2 {
        SchemaStep::Ready
    } else if version == 1 {
        SchemaStep::Upgrade
    } else if version == 0 {
        SchemaStep::Create
    } else {
        SchemaStep::Unsupported
    }
}

pub fn schema_step(version: i64) -> (res: SchemaStep)
    ensures
        res == schema_step_spec(version),
{
    if version == 2 {
        SchemaStep::Ready
    } else if version == 1 {
        SchemaStep::Upgrade
    } else if version == 0 {
        SchemaStep::Create
    } else {
        SchemaStep::Unsupported
    }
}

// ---------------------------------------------------------------------------
// Command line
// ---------------------------------------------------------------------------

/// The files named after `--import` flags, in order: each flag takes the
/// next argument.
pub open spec fn import_paths_spec(args: Seq<Seq<char>>) -> Seq<Seq<char>>
    decreases args.len(),
{
    if args.len() == 0 {
        Seq::empty()
    } else if args[0] == "--import"@ {
        if args.len() == 1 {
            Seq::empty()
        } else {
            seq![args[1]] + import_paths_spec(args.skip(2))
        }
    } else {
        import_paths_spec(args.skip(1))
    }
}

pub open spec fn strings_view(v: Seq<String>) -> Seq<Seq<char>> {
    v.map_values(|s: String| s@)
}

pub fn import_paths(args: &Vec<String>) -> (res: Vec<String>)
    ensures
        strings_view(res@) == import_paths_spec(strings_view(args@)),
{
    let ghost all = strings_view(args@);
    let mut res: Vec<String> = Vec::new();
    let mut i: usize = 0;
    let mut importing = false;
    assert(all.skip(0) =~= all);
    assert(strings_view(res@) + import_paths_spec(all) =~= import_paths_spec(all));
    while i < args.len()
        invariant
            i <= args.len(),
            all == strings_view(args@),
            !importing ==> strings_view(res@) + import_paths_spec(all.skip(i as int)) == import_paths_spec(all),
            importing ==> i >= 1 && all[i - 1] == "--import"@
                && strings_view(res@) + import_paths_spec(all.skip(i - 1)) == import_paths_spec(all),
        decreases args.len() - i,
    {
        let ghost before = strings_view(res@);
        if importing {
            res.push(args[i].clone());
            importing = false;
            proof {
                let t = all.skip(i - 1);
                assert(t[0] == "--import"@);
                assert(t[1] == all[i as int]);
                assert(t.skip(2) =~= all.skip(i + 1));
                assert(strings_view(res@) =~= before.push(all[i as int]));
                assert(strings_view(res@) + import_paths_spec(all.skip(i + 1)) =~= before + (seq![all[i as int]] + import_paths_spec(t.skip(2))));
            }
        } else if str_eq(args[i].as_str(), "--import") {
            importing = true;
        } else {
            proof {
                let t = all.skip(i as int);
                assert(t[0] == args@[i as int]@);
                assert(t.skip(1) =~= all.skip(i + 1));
            }
        }
        i += 1;
    }
    proof {
        if importing {
            let t = all.skip(i - 1);
            assert(t.len() == 1);
            assert(import_paths_spec(t) == Seq::<Seq<char>>::empty());
            assert(strings_view(res@) + Seq::<Seq<char>>::empty() =~= strings_view(res@));
        } else {
            assert(all.skip(i as int) =~= Seq::<Seq<char>>::empty());
            assert(strings_view(res@) + Seq::<Seq<char>>::empty() =~= strings_view(res@));
        }
    }
    res
}

/// The text after the last `/`.
pub open spec fn after_last_slash(s: Seq<char>) -> Seq<char>
    decreases s.len(),
{
    if s.len() == 0 {
        s
    } else if s.last() == '/' {
        Seq::empty()
    } else {
        after_last_slash(s.drop_last()).push(s.last())
    }
}

/// The text before the first `.`.
pub open spec fn before_first_dot(s: Seq<char>) -> Seq<char>
    decreases s.len(),
{
    if s.len() == 0 {
        s
    } else if s[0] == '.' {
        Seq::empty()
    } else {
        seq![s[0]] + before_first_dot(s.drop_first())
    }
}

/// The guild an import file is for: its name, without directories and
/// extensions, read as a number.
pub open spec fn import_guild_spec(path: Seq<char>) -> Option<u64> {
    parse_u64_spec(before_first_dot(after_last_slash(path)))
}

pub fn import_guild(path: &str) -> (res: Option<u64>)
    ensures
        res == import_guild_spec(path@),
{
    let chars = chars_of(path);
    let mut name: Vec<char> = Vec::new();
    let mut i: usize = 0;
    while i < chars.len()
        invariant
            i <= chars.len(),
            chars@ == path@,
            name@ == after_last_slash(path@.take(i as int)),
        decreases chars.len() - i,
    {
        proof {
            assert(path@.take(i + 1).drop_last() =~= path@.take(i as int));
            assert(path@.take(i + 1).last() == chars@[i as int]);
        }
        if chars[i] == '/' {
            name = Vec::new();
        } else {
            name.push(chars[i]);
        }
        i += 1;
    }
    proof {
        assert(path@.take(chars.len() as int) =~= path@);
    }
    let ghost file = name@;
    let mut stem = String::new();
    let mut j: usize = 0;
    assert(file.skip(0) =~= file);
    assert(stem@ + before_first_dot(file.skip(0)) =~= before_first_dot(file));
    while j < name.len() && name[j] != '.'
        invariant
            j <= name.len(),
            name@ == file,
            stem@ + before_first_dot(file.skip(j as int)) == before_first_dot(file),
        decreases name.len() - j,
    {
        let ghost t = file.skip(j as int);
        assert(t[0] == name@[j as int]);
        assert(t.drop_first() =~= file.skip(j + 1));
        let ghost s0 = stem@;
        crate::text::push_char(&mut stem, name[j]);
        assert(stem@ + before_first_dot(file.skip(j + 1)) =~= s0 + (seq![t[0]] + before_first_dot(t.drop_first())));
        j += 1;
    }
    proof {
        let t = file.skip(j as int);
        if j < name.len() {
            assert(t[0] == '.');
        } else {
            assert(t =~= Seq::<char>::empty());
        }
        assert(stem@ + Seq::<char>::empty() =~= stem@);
    }
    parse_u64(stem.as_str())
}

// ---------------------------------------------------------------------------
// Connecting
// ---------------------------------------------------------------------------

/// The store after the bot connected: each guild it is in (with a key the
/// store accepts) is known.
pub open spec fn guilds_added(v: DbView, ids: Seq<u64>) -> DbView
    decreases ids.len(),
{
    if ids.len() == 0 {
        v
    } else {
        let w = guilds_added(v, ids.drop_last());
        let id = ids.last();
        if sql_int(id) && !has_guild_row(w.guilds, id) {
            w.with_guilds(w.guilds.push(default_guild(id)))
        } else {
            w
        }
    }
}

/// On connecting: registers every guild the bot is in.
pub fn add_guilds(db: &mut Database, guild_ids: &Vec<u64>)
    requires
        old(db)@.wf(),
    ensures
        final(db)@.wf(),
        final(db)@ == guilds_added(old(db)@, guild_ids@),
{
    let ghost v = db@;
    let mut i: usize = 0;
    while i < guild_ids.len()
        invariant
            i <= guild_ids.len(),
            db@.wf(),
            db@ == guilds_added(v, guild_ids@.take(i as int)),
        decreases guild_ids.len() - i,
    {
        proof {
            assert(guild_ids@.take(i + 1).drop_last() =~= guild_ids@.take(i as int));
            assert(guild_ids@.take(i + 1).last() == guild_ids@[i as int]);
        }
        let id = guild_ids[i];
        if id <= I64_MAX {
            let _ = db.add_guild(id);
        }
        i += 1;
    }
    proof {
        assert(guild_ids@.take(guild_ids.len() as int) =~= guild_ids@);
    }
}

} // verus!
