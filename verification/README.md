# sokrates

The analysis core of Sokrates, a code examination tool, as a Verus library
with a thin command line program around it.

- `src/` is the verified library. It parses Java sources with tree-sitter,
  extracts units, package and component dependencies, classifies files into
  scopes, evaluates concerns and tag rules, and computes the risk
  distributions, metrics, rankings and text reports of an export. Its
  functions carry `requires`/`ensures` contracts proved by Verus; the calls
  into `tree-sitter`, `regex` and `serde_json` go through small trusted
  wrappers whose contracts are stated next to them.
- `app/` is ordinary Rust: the `clap` command line, reading the configuration
  (`serde`), walking the source tree (`walkdir`), writing the JSON files, text
  reports and the zip archive, and the floating point formatting of
  percentages, durations and control checks.
- `tests/` exercises the library on concrete sources and values.

Modules of the library, roughly in dependency order: `text` (strings,
decimal text, ordering), `ir` (the analysis model), `java` (comment
stripping, McCabe index, package declarations), `pathset` (ordered string
sets), `pattern` (whole-text regular expressions), `deps` and `components`
(package and component dependencies), `syntax` and `units` (parsing and unit
extraction), `repository` (the Java repository analysis), `config`, `names`,
`scopes`, `export`, `concerns`, `risk`, `aspects`, `folders`,
`decompositions`, `ranking`, `duplication`, `reports`, `metrics`, `summary`,
`cli` (file records and the assembly of an analysis), `tags` and `golden`
(reference results).
