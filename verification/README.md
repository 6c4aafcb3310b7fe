# java_guard

A lightweight static-analysis gate for Java sources. Rules (built-in, YAML
pattern rules, Rhai scripts and JVM plugins) run over a parsed syntax tree;
their findings are filtered by the lines a Git diff touched, compared with a
baseline, reported, and checked against a severity gate.

## Layout

- `src/` is the library, written in Verus. Its functions carry contracts that
  Verus proves, except the small trusted wrappers named below:
  - `text`, `assoc`: string helpers and association lists with their models.
  - `ast`, `rule`: the syntax tree, violations, their ordering and sorting.
  - `gate`, `reporter`, `baseline`: severity gate, text/JSON/SARIF framing and
    per-rule tallies, baseline matching of violations across revisions.
  - `git_diff`: unified-diff parsing, changed-line filtering, old-to-new line
    mapping, repository-root search.
  - `yaml_rule`, `matcher`, `yaml_adapter`: pattern rules and the tree matcher.
  - `empty_catch`, `infinite_loop`, `builtin`: the built-in rules.
  - `rhai_rule`, `plugin`: script headers and results, plugin protocol.
  - `scan`, `options`: rule selection and overrides, per-file narrowing of
    findings, and the settings taken from the command line or project file.
  - `bridge`, `source`: parser settings and cache paths, source decoding.
  The calls into `regex`, `encoding_rs` and a few std functions go through
  small trusted wrappers whose contracts are stated in their doc comments.
- `tests/` exercises the library through its public API.
- `app/` is the command-line program: argument handling, file and process
  I/O, serialisation, threads and the Rhai engine.
