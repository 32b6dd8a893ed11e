# dbc_parser

Parsing and printing of CAN database (DBC) files, with the parsers and
printers proved against a grammar written as specification functions.

- `src/text.rs`: characters, strings and decimal notation.
- `src/ast/common_parsers.rs`: the lexical layer (white space, names,
  keywords, numbers, quoted text) and the lemmas that read a written token
  back.
- `src/ast/*.rs`: one module per section of a DBC file (version, new
  symbols, bit timing, nodes, value tables, messages and signals, value
  descriptions of signals and of environment variables); each has its
  grammar (`parse_..._at`) and the code that parses it. All but the value
  tables also have a written form (`..._text`), the code that writes it, and
  a lemma that the written form reads back; value tables are only parsed.
- `src/ast/network_ast.rs`: a whole file, `dbc_value`, `parse_dbc`,
  `lemma_network_roundtrip` and `lemma_dbc_value_leading_space`.
- `src/ast/error.rs`: the error type and the messages it is shown with.
- `app/`: the error type with `thiserror` and nom's error traits,
  `dbc_value` and `parse_dbc` with that error type, and the conversion of a
  signal's numbers to `f64`.

Signals keep their factor, offset and bounds as the decimal text of the
file, so that no precision is lost.
