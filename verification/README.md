# rename_me

The front end of the `renamec` compiler, verified with Verus.

- `src/lexer.rs`: a lexer over the bytes of a source (UTF-8 decoding, tokens,
  one token of look-ahead). Each read and peek equals its mathematical
  definition; the shape of tokens and the agreement of peeking and reading
  are proved as laws.
- `src/parser/`: a recursive-descent parser of declarations, statements and
  expressions. Each parse function equals its definition in `parser/spec.rs`,
  which follows the grammar written on each rule; laws give the modifiers a
  declaration may carry and the shape of its name, and that attribute lists
  add the attributes they read. Modifiers and function attributes are bit
  flags with their laws.
- `src/errors.rs`: the errors of the lexer and the parser, with the messages
  of lexer errors, internal errors and compile errors.
- `src/cli.rs`: the command line of the driver, as the manual page gives it,
  as a reader proved equal to a mathematical reading of the arguments, with
  the documented equivalences proved as laws.
- `src/codegen.rs`: lowering of declarations to LLVM through inkwell. The
  decisions are verified; each inkwell call stands behind a small trusted
  wrapper, and the functions a module holds (name, LLVM function type,
  linkage, string attributes) are stated through names for a module's
  contents and for what a type handle stands for.
- `app/`: the `renamec` binary: arguments, environment, error reports, LLVM
  target set-up.
