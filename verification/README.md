# stack

A command-line tool for stacks of git branches: an ordered list of branches,
each built on the one below it, down to a target branch. `stack restack`
re-applies every layer's own commits (`base..tip`) onto the new tip of the
layer below; `stack advance` drops a merged bottom layer and re-targets the
rest; `--continue` and `--undo` resume or roll back an interrupted operation.

## Layout

- `src/` — the verified library (Verus):
  - `metadata.rs` — the stack description (target and ordered layers) and its
    operations: insert at a position, find, remove; laws on how they relate.
  - `commands/restack.rs` — the restack/advance engine: the guards checked
    before anything changes, the layer-by-layer state machine (driven by the
    tool, which performs each requested git action and reports the result),
    the final metadata, and undo; laws on termination, resumability, undo,
    restacking twice, and advance as removal plus restack.
  - `commands/consistency.rs` — the per-layer checks behind `stack status`
    (and behind `advance`'s refusal of a stack whose surviving layers are
    not up to date).
  - `commands/{init,insert,remove,delete,list,status,movement}.rs` — the
    decisions of the other commands.
  - `git.rs`, `text.rs` — git's errors; decimal rendering.
- `app/` — the executable: argument parsing, git processes, JSON files under
  `.git/stack/`, and the loops that carry out the library's requests.
- `tests/` — tests of the library on concrete stacks and simulated repositories.

## Notes

- The undo snapshot keeps each layer's branch with its commit as a list of
  pairs (the JSON file stores them as a map). That no branch occurs twice in
  it is not an invariant of the type; it is proved (`lemma_snapshot_refs_unique`)
  for stacks whose branches are unique, which every operation on a stack
  description preserves.
- `stack status` prints `Current stack: <name> (target: <target>)`, then each
  layer with its check's finding, and `Stack needs to be restacked` when some
  layer has an issue.
