# pingbot

A Discord bot for ping lists: members join named lists, and a ping of a list
mentions everyone in it. Moderators create, rename and configure lists;
members can propose new lists and vote on them; automatic responses greet
members or react to role changes; and recent messages of a channel can be
logged and purged.

The decisions the bot makes are a library verified with Verus:

- `src/database.rs`, `src/db_*.rs`: the store, one table per vector, with its
  invariant (`DbView::wf`) and every read and write of it;
- `src/membership.rs`, `src/lists.rs`, `src/suggest.rs`: joining and leaving,
  list management, the `/list` pages and name completion;
- `src/ping.rs`: who may ping, cooldowns, and the ping messages;
- `src/configure.rs`: `/configure`;
- `src/proposing.rs`: proposals, votes and the periodic proposal check;
- `src/responses.rs`: automatic responses and their conditions;
- `src/purge.rs`: `/log_purge`;
- `src/startup.rs`, `src/pickle_import.rs`, `src/integrity.rs`: start-up, the
  import of saved guild data, and the check of a store read from disk;
- `src/laws.rs`, `src/import_laws.rs`: properties that span several
  operations, and what an import of saved data gives.

`app/` holds the Discord and SQLite side that Verus does not see: the event
handlers, command registration, and reading and writing the store's file.
