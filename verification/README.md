# clarion

Clarion analyses a code base through language plugins and stores what they
report — entities and edges — in a SQLite database under `.clarion/`.

The library (`src/`) holds the logic, each function with a contract proved
by Verus:

- `entity_id` — the three-segment entity ID `plugin:kind:qualified_name`,
  its grammar, assembly and parsing.
- `plugin::transport` — Content-Length framing on the plugin's pipes. The
  reader and writer carry a record of the bytes taken from and handed to
  them; `read_frame`'s outcome is stated over the bytes it consumed and
  `write_frame`'s over the bytes it wrote, and a written frame reads back as
  the same body.
- `plugin::limits`, `plugin::breaker`, `plugin::window` — the frame ceiling,
  the run-wide entity cap, the path-escape and crash-loop breakers over a
  rolling window, and the address-space limit.
- `plugin::host` — the supervisor: requests, the drain of stale responses,
  the handshake, shutdown, and the per-entity pipeline (field sizes,
  ontology, identity, jail, cap) with its findings, including the frames
  each exchange writes to the plugin.
- `plugin::discovery`, `plugin::jail`, `plugin::protocol` — the executable
  naming rule, the `$PATH` scan (first executable of a name wins, each
  directory once), where a manifest is looked for, the path jail's verdict
  on canonical paths, and the
  JSON-RPC message types (exactly one of `result` and `error`).
- `storage` — entity and edge records, the per-kind edge contract, the
  writer's run and batch-commit protocol, and which schema migrations are
  pending (a second run applies nothing).
- `cli` — the argument model, the decisions of `clarion analyze` (a
  plugin's crash does not stop the others until the crash-loop breaker
  trips, and the others' entities are kept while the run is marked
  failed; each plugin's files are analysed in order until one fails, then
  the plugin is shut down or killed), the 95th
  percentile, and Unix-time to calendar conversion (Hinnant's algorithm,
  proved against the day-by-day calendar).

The binary (`app/`) parses arguments, walks the file system, spawns
plugins, talks to SQLite through the writer actor, and encodes and decodes
JSON; it calls the library for every decision.
