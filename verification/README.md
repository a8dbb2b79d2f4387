# huelang parsers

Verified parsers for a small imperative language with references, heap
allocation, `while` and `if`, working on a token stream.

- `src/token.rs`: tokens and their kinds.
- `src/ast.rs`: syntax trees, their mathematical models and the views between them.
- `src/grammar.rs`: the grammar as a parsing-expression grammar (ordered,
  committed choice; greedy repetition), one spec function per rule.
- `src/parser.rs`: the executable parsers (`lhs_parser`, `type_parser`,
  `arith_parser`, `bool_parser`, `expr_parser`, `command_parser`) and
  `parse_command` for whole programs; each is proved to compute exactly its
  grammar rule.
- `src/embedding.rs`: reading a token sequence inside a larger one gives the
  same result, when what follows is a token the rules at hand never read.
- `src/laws.rs`: properties of the grammar: progress, whitespace handling,
  whitespace around a whole input, and composition of `let`, assignments and
  `;` sequences.
- `src/printing.rs`: printing types, arithmetic and boolean expressions back
  to tokens, and the laws that a printout reads back as the same tree.
- `tests/`: concrete parses.
