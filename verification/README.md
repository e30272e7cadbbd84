# lpp

The front end of the `lpp` language: a lexer, verified with Verus, and the
first pieces of a parser.

- `src/lex_spec.rs` — the model: what one lexing step does at a position
  (`scan`), and what lexing a whole text gives (`lex`): the tokens with their
  spans, the error if any, and the position reached.
- `src/lexer.rs` — the token types and the executable lexer; `Lexer::tokenize`
  is proved to produce exactly what `lex` describes.
- `src/lex_laws.rs` — properties proved of every text: tokens are only
  appended, `Eof` ends exactly the successful runs, each token starts at a
  position of its own (`token_starts`) whose span it carries, spans strictly
  increase, the sign rule, words-only text gives one token per word,
  keywords read back, whitespace-only text gives only `Eof`.
- `src/text.rs` — character classes and string/character conversions.
- `src/parser.rs` — the syntax tree and the parser's token cursor.
- `app/main.rs` — reads `tests/basic_syntax.lpp` and prints its tokens
  (using `Span::to_string` and `LexError::message`).
