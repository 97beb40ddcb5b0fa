# Canopy

Canopy keeps token-efficient indices of source repositories. Files are parsed
into nodes (sections, code blocks, functions, classes, chunks), a query answers
with small handles to nodes, and a handle is expanded to its text on demand.

The library under `src/` holds what the tool decides and computes, with
contracts that Verus proves:

- `parse/` splits Markdown, source code and plain text into nodes and
  references;
- `query/` reads the query language and runs it over what the searches found;
- `index/` decides which files are read anew, which rows they become, which
  searches are made, and how rows are read back;
- `runtime/`, `dirty`, `merge`, `provenance`, `predict` route queries between
  the local index and the service, overlay uncommitted files, and trace where
  handles came from;
- `document`, `handle`, `generation`, `config`, `protocol`, `feedback` are the
  data that these share.

`app/` is the program around it: arguments, files, SQLite, git, HTTP, threads
and colours. `tests/` runs the library against the outside crates it calls.
