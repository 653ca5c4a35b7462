# ferrodun

The core of a multi-tenant MUD engine, written in Verus: the functions of
the library carry `requires`/`ensures` contracts that Verus proves. The few
calls into `std`, the `argon2` crate and the operating system's random
source (`rand_core`) that Verus cannot read go through small wrappers
(`chars.rs`, `account/credential.rs`) whose contracts are trusted; their doc
comments say what each one claims. The `std` collections the library keeps
(`Vec`, and `BTreeMap` / `HashMap` keyed by integers in the command trie and
the location table) are used through the specifications `vstd` gives them.

## Layout

- `src/` — the verified library.
  - `entity`, `arena` — packed entity handles and the per-tenant liveness
    arena (stale and cross-tenant handles are rejected; burned slots are never
    reused).
  - `side_tables`, `world`, `write_model`, `scheduler` — the location,
    inventory and naming tables, the world aggregate that validates every
    handle before touching them, and the tick scheduler that applies queued
    commands in arrival order.
  - `place`, `region`, `slug` — rooms, exits, visibility and the durable slugs.
  - `locks` — the lock DSL: a hand-written lexer and precedence parser,
    resolution of the known lock functions, and evaluation.
  - `text` — colors, attributes, styles, styled text, the palette and the
    builder-markup compiler.
  - `cmd` — command names and switches, the prefix trie (a `BTreeMap` per
    node, keyed by the next character's scalar value), the Union / Replace /
    Remove merge of command sets and the line parser.
  - `account` — usernames and puppet names, account states, and argon2id
    credentials (the hashing itself is the `argon2` crate's).
  - `db` — the decisions of the persistence layer: id conversions, the
    slug/handle map, the login and registration decisions, the row write each
    applied effect implies, and the boot-load rebuild of a world from its rows
    (with the law that a load restores every entity, location and containment
    row).
  - `chars`, `names` — character and string helpers, and a small name map.
- `app/` — ordinary Rust around the library: the SQLite queries (`sqlx`,
  `tokio`), and serialisable / displayable copies of the library's value
  types.
- `tests/` — the test suite, run against the compiled library.

Laws that span several functions are public proof functions, named
`lemma_…`, next to the functions they speak of.
