# git_wt

An interactive manager for Git worktrees: it finds the repositories under
configured directories, lists their linked worktrees, and removes the ones the
user picks with `git worktree remove --force`, skipping any with uncommitted
changes.

The library in `src/` holds the logic, verified with Verus:

- `text` — the `str` operations the parsers rely on (`split`, `lines`,
  `strip_prefix`, `contains`, `trim`), specified over `Seq<char>`.
- `porcelain` — reading `git worktree list --porcelain`.
- `inspect` — what the output of `git status`, `git rev-parse`,
  `git branch -vv` and `git log` says about a worktree and its branch.
- `worktree` — the worktree record, its labels and staleness.
- `paths` — file-system paths, carried as opaque `PathBuf` values.
- `discovery` — which directories found by the walk are repositories.
- `config` — the configuration.
- `clean` — the clean-up as a state machine, with its laws: nothing is removed
  without a yes from the user, dirty worktrees are never removed, and each
  chosen worktree is dealt with once, in the order chosen.
- `doctor` — the diagnostics as a state machine; the total it reports is the
  sum of the per-repository counts, and it suggests creating a worktree only
  when there is none.

`app/` is the command-line program: argument parsing, the configuration file,
running `git`, walking directories and the prompts.
