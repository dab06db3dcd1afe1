# vector

A small array language that traces programs into StableHLO graphs, with the
formats and tools around it, written in Verus: every function in `src/` carries a
contract that Verus proves.

## Layout

- `src/lexer.rs`, `src/parser.rs`: tokens with their lines and columns, and the
  expression and statement grammar, as functions on characters and tokens whose
  results are stated by spec functions.
- `src/graph.rs`, `src/trace.rs`: the graph of traced operations and the tracer that
  builds it, sharing identical nodes.
- `src/batch.rs`, `src/algos.rs`, `src/grad.rs`: batched elementwise work, matrix
  products and stacking; sorting and scans; reverse-mode gradients.
- `src/tracing.rs`: traced values (tensors and records) and the tracer of the
  language's expressions, calls and bindings.
- `src/literals.rs`: number literals evaluated exactly, as integers scaled by ten to
  the tenth, for the built-ins that read literals (ranges, counts, dimensions).
- `src/emit.rs`: the StableHLO text of a graph.
- `src/compile.rs`: a program's text lexed, parsed, traced and written as StableHLO.
- `src/messages.rs`: what the tracer's, the lexer's and the table reader's errors say.
- `src/inflate.rs`, `src/image.rs`, `src/audio.rs`, `src/npy.rs`,
  `src/safetensors.rs`, `src/json.rs`, `src/table.rs`, `src/text.rs`: file formats
  and tokenizers, as functions on bytes and characters.
- `src/serve.rs`, `src/net.rs`, `src/runtime.rs`, `src/plot.rs`, `src/checks.rs`,
  `src/repl.rs`: the server's signature parsing, URL and path logic, plugin and
  cache paths, plot layout helpers, and the prompt's bracket balance.
- `app/`: a command-line program around the library: reading files, and printing
  what the library computes from them.
- `tests/`: tests run against the compiled library.
