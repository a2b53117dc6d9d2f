# wt

`wt` is a tool for git worktrees that shares the files git ignores: one
store per repository, and a link in each worktree.

- `src/` is the library, verified with Verus: the decisions of each command
  (which worktree a name selects, which worktrees `prune` removes, what
  `share` and `sync` do with a path), the parsers of what git prints, the
  normal form of remote URLs, and the lists of shared paths.
- `app/` is the program around it: the command line, git processes, and
  the files on the disk.
- `tests/` runs the library on concrete values.
