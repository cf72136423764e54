# fledge_standup

A `fledge` plugin that turns recent git activity into a paste-ready Markdown
standup post, narrated by `fledge ask`.

- `src/` is the library, verified with Verus: the `--since` window as an ISO
  date (`since.rs`), calendar dates from the `time` crate (`dates.rs`), the
  command lines of `git`/`gh` and what their output comes to (`gitcmd.rs`),
  paths (`paths.rs`), the scopes and the layout of the gathered log
  (`scope.rs`), sorting (`order.rs`), the prompt (`prompt.rs`), what a run does
  with the result (`plan.rs`), error texts (`error.rs`) and character-level
  text utilities (`text.rs`).
- `app/main.rs` is the program: command-line parsing, running `git`, `gh` and
  `fledge`, reading the file system and the environment.
- `tests/` exercise the library on concrete inputs.
