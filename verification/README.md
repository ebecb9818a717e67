# gamesync

GameSync keeps a personal game library in a plain folder that a sync service such as
Dropbox can carry between machines. Every game and the library's own definitions
(statuses and collections) are stored as immutable JSON revisions with parent links,
so concurrent edits on two machines become a visible conflict instead of a silent loss.

This crate is the verified core, written in Verus. Its contracts state what each rule
returns, and proof functions state the laws that hold across operations: a revision
history with a missing parent never counts as complete, a saved edit is the only head,
archiving can be undone, provider refreshes never overwrite personal data, and the
view keeps its selection by game identity across sorting and filtering.

## Layout

- `src/` — the verified library.
  - `records`, `library`: game records and library definitions, with their validation.
  - `revisions`: reading a revision history into heads, conflicts and issues.
  - `stores`: turning an edit, an import or a conflict resolution into the child
    revision to publish, checked against the reviewed heads.
  - `reader`: what a folder scan keeps of each game.
  - `model`, `grid`, `editor`, `collections`, `shell`: decisions of the desktop views.
  - `steam`, `covers`: the Steam import's checks and its resumable stages.
  - `appearance`, `settings`, `credentials`, `thumbs`, `events`, `text`, `ordering`:
    device preferences and shared helpers.
- `tests/` — tests run against the compiled library with the real outside crates.
- `app/` — a small command-line shell around the library: file and network I/O,
  JSON, the OS keyring and folder watching.
