# ravel-lite

The plan-state core of ravel-lite, a runner for backlog-driven LLM
development cycles, written in Verus.

- `src/` is the verified library: the typed plan files (backlog, memory,
  intents, findings, commits, targets, mount requests, focus and
  objections), every `state` verb over them, the legacy markdown
  parsers, the backlog renderer and linters, the phase-loop decisions,
  prompt composition, phase summaries, plan inspection, the repo
  registry, the related-projects graph and the build-closure walk used
  to mount targets. Each public function states what it returns in its
  contract; the laws that relate several functions are public proof
  functions.
- `app/` is the I/O around it: YAML files on disk (serde copies of the
  library's types), git, and the glue that reads a file, asks the
  library, and writes the answer back.
- `tests/` runs the library on concrete values.
