# gitview

gitview shows the history of git repositories, tells how each branch and its remote
differ before anything is pulled or pushed, and carries out the everyday operations
(committing, staging single lines, merging, rebasing, pushing, resolving conflicts) so
that each of them can be taken back. All data stays on the machine, and no credentials
are kept.

The logic is a library written in Verus: every function carries a contract, and the
contracts are proved. Reading repositories, writing to them and showing anything is left
to the program around it.

## Layout

- `src/` is the library.
  - `dag`, `order`, `layout`: the graph of commits, the order of its rows and the lanes
    they are drawn in. What holds of all histories is proved in `order_laws`,
    `layout_laws` and `reading_order`.
  - `intraline`, `diff`, `patch`, `compare`, `selection`: differences, the changed words
    within lines, and staging picked lines. See also `selection_laws`.
  - `operation`, `ops`, `workspace`, `conflict`: operations as machines that ask for one
    step after another and are told what came of it. `operation_laws` and `safety_laws`
    hold what is promised of all of them: nothing changes before a safety point is kept,
    a refusal changes nothing, a forced push holds its lease.
  - `fetch`, `divergence`, `status`, `search`, `repo`: remotes, how branches differ, the
    state of a repository, its history.
  - `settings`, `state`, `service`, `dto`, `watcher`: what is set, what is watched, and
    what the interface is shown.
  - `cli`, `report`: the command line.
  - `text`, `matching`, `sorting`, `pathset`, `git`: what the rest is built on.
- `tests/` runs the library, operations on real repositories among it.
- `app/` is the program: it reads and changes repositories with libgit2, keeps the
  settings file, and shows results on the command line or in a window.

What is taken on trust stands in `text`, `matching`, `git` and `fetch`: short wrappers
round functions of the standard library and of `git2`, each with a comment on what is
claimed of it.
