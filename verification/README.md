# Compare Observer

A multi-system file watcher and deployment tool. For each configured system
it watches a source folder, lists the files that change (minus the files
that the "Except" rules exclude), shows a side-by-side diff of a changed file
against the content captured when watching started, and copies the checked
files to a destination (optionally notifying a Telegram chat).

## Layout

- `src/` — the library, verified with Verus:
  - `file_entry.rs` — the table entry and the header checkbox state;
  - `file_ops.rs` — table operations (add/refresh, remove, check/uncheck)
    and their laws;
  - `watch.rs` — exclusion rules, watch events and how they change the tables;
  - `diff.rs` — the line diff (longest common subsequence) and change navigation;
  - `rules.rs`, `rules_api.rs` — built-in rule tables and the rule-loading fallback;
  - `settings.rs` — settings data, system slots, settings-dialog edits;
  - `telegram.rs` — notification text and endpoint;
  - `panel.rs` — copy checks, copy counts, progress;
  - `text.rs` — decimal text, line and separator splitting.
- `tests/` — tests of the library.
- `app/` — the desktop program: window and dialogs, settings file, file
  system watching and walking, HTTP requests.
