# hk

hk manages git hooks and runs the linters and fixers that a project configures
for them. This crate holds its rules: which steps a hook runs, on which files
and in which order, how unstaged work is put aside and restored, how settings
and configurations of several sources are put together, what is installed, and
what is told to people and to coding agents.

The rules are verified with Verus. Every function of `src/` states what it
returns or changes as a contract over sequences, and the laws that hold across
functions stand beside them as proof functions whose names begin with `law_`.

- `text`, `seqs`, `table`, `paths`, `json`: texts, lists, ordered tables, paths
  and JSON values
- `step`, `step_group`, `hook`, `hook_options`: what a configuration says, and
  what an invocation asks for
- `files`, `preflight`, `plan`, `hook_run`, `execution`, `hook_context`,
  `report`: from the selection of files to the summary of a run
- `config`, `project`, `evaluate`, `settings`, `env`, `cache`, `version`: where
  configuration comes from
- `install`, `init`, `pkl`, `pre_commit`, `mcp`, `command_effects`, `runtime`:
  the commands

`app/` is the program around the library: arguments, files, processes and the
network. `tests/` runs the library on concrete values.
