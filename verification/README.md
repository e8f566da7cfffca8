# ppl

A command-line tool for PPL developers: it sends PPL queries to an
OpenSearch endpoint (by default `http://localhost:9200`) and makes the
results easy to inspect, as JSON, as a table, or, with `--explain`, as a
syntax-highlighted Calcite query plan.

The library under `src/` is verified with Verus:

- `explain/parser.rs`: the lexer of Calcite plans and the context-aware
  highlighter (operators, functions, attributes, variables, strings, numbers,
  keywords, comments), with their mathematical model (`lex`, `highlighted`).
- `explain/mod.rs`: the explain report: the logical plan, and the physical
  plan with each `sourceBuilder=` JSON pretty-printed and indented.
- `explain/laws.rs`: properties of the lexer and highlighter that span calls.
- `plan_grammar.rs`: the same report highlighted by a token grammar with
  longest-match rules.
- `query.rs`: endpoints, curl commands, credentials, query text, result rows
  as JSON objects, batch options.
- `table.rs`: result rows as a text table.
- `profile.rs`: the layout of a query profile and its plan tree.
- `json.rs`, `paint.rs`, `text.rs`: JSON values, terminal colors, characters.

`app/main.rs` is the program: arguments, files, HTTP, printing, profile timings and
benchmarks.
