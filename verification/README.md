# hyperion

The shell logic of Hyperion, a Matrix client, as a Verus library: every
function in `src/` carries a contract that Verus proves.

## Layout

- `src/` — the verified library.
  - `text` — string helpers over `Seq<char>` and the few trusted calls into
    `std`, `base64` and `rand`.
  - `rich_text` — Matrix HTML to safe typed nodes, and linkified plain text.
  - `timeline`, `paging`, `timeline_cache`, `projection`,
    `timeline_registry` — timeline items, page tokens, cached pages,
    subscription projections and the registry of open timeline views.
  - `discovery`, `search`, `message_search`, `backfill` — discovery of
    users, rooms and spaces; the search index documents, global search and
    the step-by-step collection of its message hits, and the search
    backfill state machine.
  - `account`, `account_manager`, `security`, `settings`, `store_paths` —
    homeserver registration, the signed-in accounts, session and
    encryption views, settings values and the on-disk layout of a store.
  - `media`, `cache_state`, `room_state`, `keyed` — served media and byte
    ranges, caches that were already served, room list state, and a keyed
    cache used by the registries.
- `tests/` — tests run against the compiled library.
- `app/` — ordinary Rust around the library: JSON files, the SQLite
  timeline view store, the file system, the clock, and the loop that drives
  a message search.

Laws that relate several functions stand in `src/` as public proof
functions whose names begin with `lemma_`.
