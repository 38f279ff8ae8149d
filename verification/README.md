# doclinker

The verified core of DocLinker, a desktop launcher that indexes the Markdown,
text, executable and URL-shortcut files of configured workspaces and searches
them with SQLite FTS5.

- `src/` — the library, verified with Verus:
  - `text` — trimming, lines, splitting, ASCII case folding, joining over `Seq<char>`;
  - `models` — configuration records, workspace and file kinds, index records;
  - `scanner` — file kinds by extension, excluded directories, Markdown aliases
    and titles, URL-shortcut targets, and the record of a file;
  - `config` — path checks, duplicate refusal, default names and identifiers of workspaces;
  - `indexer` — the full-text query of a keyword, the workspaces to index, the SQL text;
  - `watcher` — workspace lookup for changed paths, watched paths, event decisions,
    and the debounce queue;
  - `commands` — search requests, preview keys, error text;
  - `db` — the schema and its alias-column migration;
  - `error` — the error type.
- `app/` — the desktop program: Tauri shell, `config.json` I/O, SQLite, directory
  walking and the file watcher, calling the library for every decision.
- `tests/` — tests of the library on concrete values.
