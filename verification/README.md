# drawskill

A diagram tool: a small YAML language of auto-laid-out boxes, symbols, text and
connections, rendered to SVG, PNG or PDF.

- `src/` is the verified library (Verus). It holds the parts of the tool whose
  behaviour can be stated over integers, characters and strings: the expression
  lexer, the SVG path tokenizer and command grammar, color parsing and hex formatting, XML escaping and
  opacity attributes, the keys and words of the diagram language, `${...}`
  interpolation plans, the symbol registry and its ordered map, font-family
  choice and grouping, output-format inference, and the decisions of the
  self-update command (versions, release archives, the search of a zip or
  gzip-compressed tar archive for the binary, the release tag of a JSON reply),
  and the dispatch and arity checks of the expression language's built-in
  functions. Each public function carries a contract; laws that relate several
  functions are public proof functions.
- `app/` is the command-line program around it: YAML loading, the
  floating-point layout engine, expression evaluation, SVG generation, PNG/PDF
  conversion, font measurement, the symbol drawings, and the network and file
  system work of `update`.
- The symbol registry keeps its names in `SortedMap`, a vector held in
  character order with no name twice. vstd specifies `BTreeMap` only for key
  types whose `Ord` is shown to agree with a spec order (`obeys_cmp_spec`), and
  nothing establishes that for `String` keys, so a map keyed by names could be
  called but nothing about its order could be proved.
- `tests/` exercises the library on concrete values.
