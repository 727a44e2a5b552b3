# ocs

A viewer for OpenCode sessions that reads the OpenCode SQLite database
directly: list, show, search, compare, export, tag and annotate sessions,
report usage, watch a session live, and drive `opencode run`.

## Layout

- `src/` — the library, verified with Verus. Every public function states
  what it returns in its `ensures` clause, over the spec functions beside it.
  - `models` — the data model (costs held as whole millionths of a dollar).
  - `db` — the SQL of the session list, content search and rankings, search
    snippets, and the attaching of parts to their messages.
  - `stats` — totals, per-role counts and the per-agent breakdown.
  - `meta` — the tag and note store, with its laws (a tag added is listed,
    adding twice changes nothing, a note reads back what was written, ...).
  - `render_list`, `render_msg`, `render_report`, `render_usage` — the
    markdown of lists, messages, statistics, exports, reports and
    comparisons.
  - `md_events`, `md_render`, `md_table`, `styling` — the terminal
    rendering of markdown: parser events, the renderer's state machine,
    box-drawn tables, data highlights and code highlighting.
  - `pager` — the pager's state machine: scrolling, search, go-to-line and
    loading earlier lines, with its laws.
  - `run`, `manage`, `cmd` — the decisions of the commands that drive
    `opencode run`, watch a session, undo a message, prune and export.
  - `text`, `split`, `ansi`, `timefmt`, `keyed`, `sorted` — strings, lines,
    ANSI escapes, timestamps, keyed tables and sorted lists.
- `app/` — the program: command line, database and file access, terminal
  input and output, JSON output.
- `tests/` — tests of the library on concrete values.

Calls into `regex`, `syntect`, `pulldown-cmark`, `chrono` and
`unicode-width` go through small trusted wrappers whose contracts name what
those crates compute.
