# muzzle

Session isolation for agents that work on a set of git repositories: the decisions
of the session-start hook, and the git helpers that it relies on, as a verified
library.

The library does no input or output. A function that needs something from the file
system, git or the clock asks for it with a value, and is called again with the
answer; what is to be done comes out as a list of effects. Contracts state each step
exactly, and the laws state what holds of whole runs, whatever the system answers.

| Module            | What it decides                                             |
|-------------------|-------------------------------------------------------------|
| `start`           | the hook: startup, resume, clear and compact                |
| `recovery`        | crash recovery within its time limit, pruning of worktrees  |
| `sweep`           | laws on whole runs of the pruning                           |
| `history`         | laws on whole runs of the hook                              |
| `cleanup`         | what is stale, which worktrees and branches are orphaned    |
| `archive`         | putting logs away compressed, and bringing them back        |
| `worktree::git`   | git commands, branches, the default branch                  |
| `glob`            | file names that match a pattern                             |
| `output`          | what the session is told, what the changelog says           |
| `calendar`        | timestamps                                                  |
| `session`         | sessions, settings, effects, questions and answers          |
| `system`, `path`, `text` | commands and files, paths, text                      |

`app/` carries out what the library decides. What the hook shares with the other
hooks comes in through `app::hook::Project`.

What is taken on trust stands in the wrappers around `flate2` (`archive`),
`serde_json` (`output`), and a few functions of the standard library (`path`,
`text`); each says what it claims.
