# butter

Core data structures and algorithms of the Butter language toolchain,
written in Verus with their contracts proved.

- `span`, `tree`, `tree_vec`, `forest`, `assoc`: text spans and flat forests
  stored in preorder, with a model of each as a sequence of trees.
- `doc`, `pretty_print`: layout of documents of the `pretty` crate, and a
  line-oriented tree printer.
- `lexer`, `lexeme`, `ident_keyword`, `number`, `decimal`, `operator`,
  `parser`: lexing, numbers, operators and a precedence-climbing parser.
- `expr`, `pattern`, `statement`: the syntax tree and its model.
- `expr_grammar`, `expr_parser`, `pattern_parser`: the grammar of
  expressions, patterns and statements as spec functions, and the parsers
  proved to follow it.
- `expr_print`, `pattern_print`: the documents that lay out syntax trees.
- `ty`: types, substitutions, schemes, environments and unification, with
  the laws they obey; `ty::infer` infers the types of literals, variables
  (instantiating their schemes), `()`, arrays, tags, ranges, spreads,
  `return`, places (fields, indexing, slices, lengths, dereferences) and
  unary and binary operators.

`app/` holds what stays outside the verified library: the floating-point
values of float literals.
