# oapth

Schema management for SQL migrations, with its parsing and decision logic verified by Verus.

Migrations live in group directories named `{version}__{name}` that a root configuration
lists one per line. A migration is either a single `{version}__{name}.sql` file, with an
optional header (`-- oapth dbs ...`, `-- oapth repeatability ...`), an `-- oapth UP` section and
an optional `-- oapth DOWN` section, or a directory holding `{dir}.cfg`, `{dir}_up.sql` and
`{dir}_down.sql`.

- `src/` is the verified library: the line-by-line migration parser (`migration_parser`),
  names and checksums (`utils`), migrations assembled from what a directory holds
  (`migration`), the root configuration (`parsers`), the settings of each back end
  (`backends`), the command facade (`commands`) and the character-level text operations
  they are stated over (`text`).
- `app/` reads files and directories and hands their text to the library.
- `tests/` runs the library on concrete inputs.
