# ccline

A fast status line for a coding-agent CLI, with its logic verified by Verus.

- `src/` — the verified library:
  - `text` — character-level primitives (`lines`, `split_whitespace`, `trim`,
    unsigned parsing, decimal formatting, substring search) with the meaning
    of the corresponding `str` operations as spec functions.
  - `headers` — status code and `Retry-After` of a `curl -D` header dump,
    with the laws that the final header block decides both.
  - `usage` — when the usage cache is refreshed, how a failed refresh backs
    off, the curl config, and which weekly-scoped limit belongs to a model.
  - `update` — version keys, the latest release, release targets and URLs.
  - `git`, `session`, `context`, `render`, `cli`, `input` — the widgets'
    text, the status line, and the command line.
- `app/` — the executable: stdin, files, processes, JSON reading, and the
  widgets that compute with floating point.
- `tests/` — tests of the library.
