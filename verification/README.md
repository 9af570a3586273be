# strict-weave

A strict entity- and line-level three-way merge for Git, as a Verus library
with a thin command around it.

- `src/` is the verified library:
  - `reason/` — the reason model (kinds, subjects, evidence), its ordering and
    normalization, validation and human-readable summaries;
  - `merge/` — input checks, conflict boxes, move notes and the rendering of a
    file's merge from its analysis;
  - `analysis/` — partitions of files into entities (through sem-core and
    weave-core), weave's refusals and classifications, the strict rules, the
    cross-file move candidates and the three-tree report;
  - `operation/` — what merge, cherry-pick, stash and rebase decide between
    Git commands: supported inputs, plans bound to a repository state,
    conflict stages, and the rebase state machine;
  - `workflow/` — validated requests and the guarded rebase todo list.
- `app/` holds `main`, Git processes, files and JSON.
- `tests/` run the library on concrete values.
