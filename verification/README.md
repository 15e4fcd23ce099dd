# this-code (verified core)

`this-code` sits in front of VS Code's `code` command: it records nothing
itself, but reads the session store the editor extension writes and routes
`code` invocations to the right binary.

- `src/` is the library, verified with Verus:
  - `text` — character sequences: splitting, joining, searching, padding,
    decimal numbers;
  - `paths` — Unix path text with `std::path` meaning (components, equality,
    parent, join);
  - `db` — the session rows and the "latest session of a workspace" rule;
  - `query` — the walk up a path's ancestry, and what `query` prints;
  - `which` — what `which` prints;
  - `shim` — goto-suffix stripping, `PATH` filtering, routing of the shim;
  - `config`, `install` — configuration paths and the install plan;
  - `json` — what `serde_json` reads from the stored open-files manifest.
- `app/` is the binary: argument parsing (clap), configuration (figment),
  the SQLite store (rusqlite), the file system and `exec`.
- `tests/` exercises the library.
