# y_harness

Verified decision core of a headless agent harness: the Agent Loop, Model
routing, policy and approval, steering, durable journals, credentials and
signed Skill packages.

Everything under `src/` is Verus. Each decision is a function from values to
values with an exact contract; what takes time (a Model, a Tool, a store, an
approver) is asked for by a step that the caller performs and answers.

- `src/runtime/` holds the Agent Loop: `start` and `turn` run a Turn, `routing`
  and `route` choose Models, `authorize`, `batch` and `tool_run` govern Tools,
  `journal` and `steering` keep the record, `budget` bounds the Model calls of a
  Turn over all its workers, `resume` and `resumption` continue a
  Turn that waits for an approval, `progress` stops repeated failure.
- `src/skill/` holds Skill packages: their form, their signatures, the trust in
  their publishers, and the resolution of exact dependency graphs.
- `src/secret.rs` holds credentials and the mappings that lead to them.
- `src/sqlite.rs` and `src/current_guard.rs` hold the rules of the SQLite
  boundary.
- The other modules hold what these share: identities, items, JSON documents,
  digests, ordered tables, text and time.

Calls into other crates stand behind small trusted functions whose doc comments
say what is believed of them. Functions named `law_...` state what holds of the
library as a whole.

`app/` is the asynchronous host around the library: it waits, calls and stores
as the steps ask. `tests/` runs the library with the real crates linked.
