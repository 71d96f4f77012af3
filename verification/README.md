# codex_session_visibility

Codex shows past sessions only where their records agree with the provider that is configured, and
with each other. This project brings the records of every instance back in line: the first lines of
the rollout files, the rows of the state database, the session index, the local thread catalog and
the project roots in the global state.

`src/` is the library. It reads no file and opens no database. A function that needs something from
outside takes it as an argument, and says what to do next: a query comes back as a statement, its
rows go into the function that finishes the work. Every function there is verified with Verus
against its contract; the laws that relate several functions are public proof functions beside
them.

| module | what it decides |
| --- | --- |
| `repair`, `report` | the run over all instances, the steps in one of them, the summary |
| `rollouts`, `first_line` | which rollout files differ, and their new first lines |
| `sqlite`, `threads`, `thread_source` | what is read from and written to the state database |
| `sql_expr`, `sql_table` | what statements mean, and what they make of a table, for the laws about them |
| `thread_table`, `catalog_table` | the laws about the two tables before and after a repair |
| `session_index`, `global_state`, `catalog` | what the other records miss |
| `backups` | what is copied before a repair, put back after a failure, and removed later |
| `provider`, `paths`, `timestamps` | the configured provider, and paths and times in one form |
| `app_server` | which app server is started, and the conversation with it |
| `json`, `text`, `order`, `os_path`, `files` | the data that all of these work on |

`app/` does the reading and writing, and hands results over to the user interface. `tests/` runs the
library against SQLite databases in memory.

What is not proved is marked `#[verifier::external_body]` or `assume_specification` in `src/`: calls
into `serde_json`, `chrono`, `toml_edit` and the standard library, each with a comment that says
what is relied on.
