# yaml_seeder

A loader for YAML seed data into MySQL-compatible databases (MySQL, TiDB), with its
logic verified by Verus.

- `src/` is the verified library: seed-file format and rows (`config`, `yaml`), table names
  (`table_name`), value conversion per column type (`value`), the JSON form of a YAML value (`json`), the planning of each row's
  `INSERT` / upsert statement (`apply`), the export query (`export`), seed file names,
  sequence numbers and the choice of seed files in a directory (`seeds`), the decisions of an
  `apply` run (`run`), command-line arguments and database URLs (`cli`), and the text and
  number utilities they rest on (`text`, `numbers`).
- `app/` is the `yaml-seeder` command: clap parsing, files, the database through sqlx,
  transactions, and logging.
- `tests/` exercises the library.

Seed format:

```yaml
version: 1
tables:
  - name: app.users
    mode: upsert-update
    rows:
      - id: user_1
        name: Alice
```

`mode` defaults to `upsert-update`; `insert` writes plain inserts.
