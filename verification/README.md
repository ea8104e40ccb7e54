# logfine

A local-first daily logger: it keeps a todo.txt file in step with a SQLite
cache of its lines, records energy, minimum viable outputs and free-form notes
per day, and exports the log as JSON. The logic is written in Verus and proved
against its contracts; the command-line program around it is ordinary Rust.

## Layout

- `src/` — the verified library.
  - `task.rs` — the todo.txt grammar: `parse_task` and the task's tag columns.
  - `sync.rs` — a sync of the todo file with the cache, as a session that
    proposes matches (best first) and takes the user's answers
    (`SyncSession`); `sync_laws.rs` proves what every sync keeps.
  - `db_plan.rs` — the rows and updates that record each sync action.
  - `todo_file.rs` — the texts written back to the todo file.
  - `sections.rs`, `daily.rs`, `daily_laws.rs` — templates, the editor's log
    text and how it is read back.
  - `export.rs` — which logs an export selects and how they are exported.
  - `date.rs`, `json.rs`, `similarity.rs`, `text.rs`, `config.rs` — dates,
    JSON framing, similarity scores, text helpers and the default settings.
- `tests/` — tests of the library.
- `app/` — the program: command line, configuration file, database, editor and
  prompts.
