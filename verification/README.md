# cdl_maze

A verified library for two small families of programs: text processing for
the CDL configuration language, and maze generation on square, hexagonal,
triangular and circular grids.

`src/` is the library. Every function there carries a contract that Verus
proves, except seven small wrappers around calls into std and `rand`, whose
contracts are trusted (each says in its doc comment what it claims):

- `text::is_alphabetic`, `text::is_numeric`: `char::is_alphabetic` and
  `char::is_numeric`, whose Unicode tables are named, not restated;
- `text::string_push`: `String::push`;
- `cdl_core::lex::str_debug`: `{:?}` on a string slice, whose escaped text
  is named, not restated;
- `parser_gen::common::str_from`: the tail of a string slice from a byte
  offset;
- `random::random_below`, `random::random_ratio`: `rand`'s `gen_range` and
  `gen_ratio`.

- `cdl_lexer`, `ident_lexer`: lexers built from matchers (identifiers,
  references, numbers, strings, literals, whitespace).
- `parser_gen`: a parser trait with primitive parsers and combinators
  (`pair`, `left`, `right`, `zero_or_more`, `pred`, `map`, ...), and the CDL
  entity grammar.
- `cdl_core`: selector lexing and parsing, the CDL syntax tree, its
  recursive-descent parser and printer, and selection of entities and
  fields.
- `maze`: square and hexagonal grids, distances from a start cell, the
  growing-tree generator, the pixel canvas, and the state of the maze
  window.
- `maze_maker`: square, triangle and circular cells and grids, wall
  connections and dead ends.
- `pixels`: packing and unpacking `0xAARRGGBB` pixels.
- `cli_args`, `random`, `text`: command-line options, random draws, and
  character and UTF-8 helpers.

`app/` holds the programs around the library: the lexing run, the command
line front end, the maze window and the floating-point ray tracer.
`tests/` holds the tests.
