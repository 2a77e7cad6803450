# wardrobe

A store of JSON records in drawers: records are found by pointers such as `@gem:ruby`, by
queries and by indexes; they refer to each other, and rules say what becomes of the references
when a record is deleted. The decisions of the store are written in Verus and proved against
their contracts.

- `src/` is the library. Values and texts: `value`, `fields`, `text`, `pointer`, `paths`. What
  stands in files: `storage`, `drawer`, `offsets`. What clients ask for and how it is carried
  out: `command`, `command_dispatch`, `engine`, `client`, `connection`. Databases, tenants and
  backups: `catalog`, `database`, `database_execution`, `boundary_execution`, `routing`. Rules
  over records and users: `deletion`, `access_control`. Settings: `config`,
  `application_logging`, `wal`.
- The files named `laws.rs`, and the proof functions whose names start with `law_`, state what
  holds across functions: that what is written is found, however often a drawer is packed or opened
  again, that a deleted record does not come back, that a backup is put back as it was, that a unique value
  is held once.
- `app/` reads and writes files and shows records on the terminal. It is not verified.
- `tests/` runs the library on given values.

JSON is parsed and written by `serde_json`, record keys are made by `uuid`, and configuration files are read
with `toml`. Each call into these crates from `src/` stands in a small function whose contract
says what is taken on trust.
