# rcl front end, verified

The parser and the abstraction of the RCL configuration language, written in
Verus with their contracts proved.

* `src/source.rs`: document ids and spans; resolving a span to its text.
* `src/lexer.rs`: the token kinds that the parser reads.
* `src/cst.rs`: the concrete syntax tree and its mathematical model.
* `src/grammar.rs`: the grammar as spec functions over token sequences.
* `src/parser.rs`: the recursive descent parser, proved to compute exactly
  what `grammar` states, to keep its bracket stack balanced, never to mix
  binary operators without parentheses, and to record in the tree only spans
  of tokens it consumed, in order. `try_parse` also reports the inputs that
  the parser does not handle.
* `src/spans.rs`: the spans that a tree records, and what it means for them
  to come from the tokens.
* `src/ast.rs`, `src/abstraction.rs`: the abstract syntax tree and the
  conversion into it, stated as a function on the tree's model and proved to
  forget comments and blank lines.
* `src/error.rs`: error types.

`tests/` holds scenarios that run the parser and the abstraction on token
sequences.
