# tardi

Tardi is a small stack-based language. This crate holds its front end and
a stack interpreter, written in Verus: every function in `src/` carries a
contract over a mathematical model of its data, and Verus proves that the
code meets it.

## Layout

- `src/scanner.rs`: turns source text into values (numbers, strings,
  characters, booleans, words), with positions and lexemes.
- `src/word_token.rs`, `src/token.rs`: the token a single word stands for
  (punctuation, integers in base 10, 16, 8 or 2, rationals, floats, quoted
  strings, words) and how each kind of token is written.
- `src/parser.rs`, `src/ast.rs`, `src/span.rs`: builds the syntax tree
  (definitions, quotations, vectors, macro definitions) from scanned values.
- `src/types.rs`: stack types, rows, effect sets, unification, composition
  of signatures and the parser of `( a b -- c | io )` signatures;
  `src/sig_text.rs` proves that a signature written out reads back as
  itself.
- `src/typechecker.rs`, `src/analysis.rs`: checks programs against the
  declared signatures of their definitions.
- `src/machine.rs`: the interpreter (`Tardi`), specified by a recursive
  model of what running a program does; the laws of the stack words are
  proved against that model.
- `src/strings.rs`, `src/vectors.rs`: the string and vector words, each a
  function on the stack with an exact contract.
- `src/equality.rs`, `src/value.rs`: values, their display forms and the
  language's equality; `src/read_back.rs` proves that the written form of
  a string or character value scans back as that value.
- `src/loader.rs`, `src/modules.rs`, `src/config.rs`, `src/op_code.rs`,
  `src/errors.rs`, `src/text.rs`: module lookup, the built-in modules,
  configuration, operation codes, errors and text helpers.
- `tests/`: tests of the library on concrete values.
- `app/main.rs`: the command-line program (files, the interactive loop).
