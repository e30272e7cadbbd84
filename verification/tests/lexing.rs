use lpp::lexer::{Delimiter, Keyword, LexError, Lexer, Literal, Operator, Radix, Span, Token};

fn lex_all(src: &str) -> (Vec<(Token, Span)>, Result<(), LexError>) {
    let mut lexer = Lexer::new(src.to_string());
    let r = lexer.tokenize();
    (lexer.tokens, r)
}

fn shapes(tokens: &[(Token, Span)]) -> Vec<String> {
    tokens.iter().map(|(t, _)| format!("{:?}", t)).collect()
}

fn spans(tokens: &[(Token, Span)]) -> Vec<(usize, usize)> {
    tokens.iter().map(|(_, s)| (s.line, s.col)).collect()
}

fn ok_shapes(src: &str) -> Vec<String> {
    let (toks, r) = lex_all(src);
    assert!(r.is_ok(), "lexing {:?} failed: {:?}", src, r);
    shapes(&toks)
}

fn err_of(src: &str) -> LexError {
    let (_, r) = lex_all(src);
    match r {
        Err(e) => e,
        Ok(()) => panic!("lexing {:?} succeeded", src),
    }
}

#[test]
fn keyword_from_accepts_every_keyword() {
    let words = [
        "as", "break", "const", "continue", "else", "enum", "extern", "fn", "for", "if", "in",
        "let", "loop", "match", "mod", "static", "struct", "type", "use", "while",
    ];
    for w in words {
        let k = Keyword::from(w).expect("a keyword");
        assert_eq!(format!("{:?}", k).to_lowercase(), w);
    }
    assert!(matches!(Keyword::from("let"), Ok(Keyword::Let)));
    assert!(matches!(Keyword::from("while"), Ok(Keyword::While)));
}

#[test]
fn keyword_from_rejects_other_words() {
    for w in ["", "Let", "lets", "le", "true", "x", "func"] {
        match Keyword::from(w) {
            Err(LexError::InvalidKeyword(s)) => assert_eq!(s, w),
            other => panic!("{:?} gave {:?}", w, other),
        }
    }
}

#[test]
fn new_lexer_has_no_tokens() {
    let lexer = Lexer::new("let x = 1;".to_string());
    assert!(lexer.tokens.is_empty());
}

#[test]
fn simple_statement() {
    let (toks, r) = lex_all("let x = 42;");
    assert!(r.is_ok());
    assert_eq!(
        shapes(&toks),
        vec![
            "Keyword(Let)",
            "Identifier(\"x\")",
            "Operator(Assign)",
            "Literal(Numeric(\"42\"))",
            "Delimiter(Semicolon)",
            "Eof"
        ]
    );
    assert_eq!(spans(&toks), vec![(1, 1), (1, 5), (1, 7), (1, 9), (1, 11), (1, 12)]);
}

#[test]
fn spans_follow_lines_and_columns() {
    let (toks, r) = lex_all("a\n  b\r\n\tc");
    assert!(r.is_ok());
    assert_eq!(shapes(&toks), vec!["Identifier(\"a\")", "Identifier(\"b\")", "Identifier(\"c\")", "Eof"]);
    assert_eq!(spans(&toks), vec![(1, 1), (2, 3), (3, 2), (3, 3)]);
}

#[test]
fn spans_strictly_increase() {
    let (toks, r) = lex_all("fn main() {\n  let y = x + 1; // done\n}\n");
    assert!(r.is_ok());
    for w in toks.windows(2) {
        let (a, b) = (w[0].1, w[1].1);
        assert!(a.line < b.line || (a.line == b.line && a.col < b.col));
    }
}

#[test]
fn blank_text_gives_only_eof() {
    let (toks, r) = lex_all("");
    assert!(r.is_ok());
    assert_eq!(shapes(&toks), vec!["Eof"]);
    assert_eq!(spans(&toks), vec![(1, 1)]);
    let (toks, r) = lex_all(" \t\r\n  \n");
    assert!(r.is_ok());
    assert_eq!(shapes(&toks), vec!["Eof"]);
    assert_eq!(spans(&toks), vec![(3, 1)]);
}

#[test]
fn second_tokenize_appends_only_eof() {
    let mut lexer = Lexer::new("x".to_string());
    assert!(lexer.tokenize().is_ok());
    assert!(lexer.tokenize().is_ok());
    assert_eq!(shapes(&lexer.tokens), vec!["Identifier(\"x\")", "Eof", "Eof"]);
    assert_eq!(spans(&lexer.tokens), vec![(1, 1), (1, 2), (1, 2)]);
}

#[test]
fn every_delimiter() {
    assert_eq!(
        ok_shapes("( ) { } [ ] ; : :: , . -> =>"),
        vec![
            "Delimiter(LParen)",
            "Delimiter(RParen)",
            "Delimiter(LBrace)",
            "Delimiter(RBrace)",
            "Delimiter(LBracket)",
            "Delimiter(RBracket)",
            "Delimiter(Semicolon)",
            "Delimiter(Colon)",
            "Delimiter(DoubleColon)",
            "Delimiter(Comma)",
            "Delimiter(Dot)",
            "Delimiter(ThinArrow)",
            "Delimiter(ThickArrow)",
            "Eof"
        ]
    );
}

#[test]
fn every_operator() {
    let src = "+ - * / % = == != > < >= <= && || ! & | ^ << >> += -= *= /= %= &= |= ^= <<= >>= ?";
    let expected: Vec<String> = [
        "Plus", "Minus", "Asterisk", "Slash", "Percent", "Assign", "Equal", "NotEqual", "Greater",
        "Less", "GreaterEqual", "LessEqual", "LogicalAnd", "LogicalOr", "Exclem", "Ampersand",
        "Pipe", "Xor", "LShift", "RShift", "AddAssign", "SubAssign", "MulAssign", "DivAssign",
        "ModAssign", "BitAndAssign", "BitOrAssign", "BitXorAssign", "LShiftAssign",
        "RShiftAssign", "Question",
    ]
    .iter()
    .map(|o| format!("Operator({})", o))
    .chain(std::iter::once("Eof".to_string()))
    .collect();
    assert_eq!(ok_shapes(src), expected);
}

#[test]
fn longest_operator_wins_without_spaces() {
    assert_eq!(
        ok_shapes("a>>=b<<c&&d"),
        vec![
            "Identifier(\"a\")",
            "Operator(RShiftAssign)",
            "Identifier(\"b\")",
            "Operator(LShift)",
            "Identifier(\"c\")",
            "Operator(LogicalAnd)",
            "Identifier(\"d\")",
            "Eof"
        ]
    );
}

#[test]
fn words_booleans_and_identifiers() {
    assert_eq!(
        ok_shapes("true false letx _a1 If if"),
        vec![
            "Literal(Boolean(true))",
            "Literal(Boolean(false))",
            "Identifier(\"letx\")",
            "Identifier(\"_a1\")",
            "Identifier(\"If\")",
            "Keyword(If)",
            "Eof"
        ]
    );
}

#[test]
fn decimal_literals() {
    assert_eq!(
        ok_shapes("1_000.5f 007 3u 2.5.1 1..2"),
        vec![
            "Literal(Numeric(\"1000.5f\"))",
            "Literal(Numeric(\"007\"))",
            "Literal(Numeric(\"3u\"))",
            "Literal(Numeric(\"2.5\"))",
            "Delimiter(Dot)",
            "Literal(Numeric(\"1\"))",
            "Literal(Numeric(\"1.\"))",
            "Delimiter(Dot)",
            "Literal(Numeric(\"2\"))",
            "Eof"
        ]
    );
}

#[test]
fn prefixed_literals() {
    assert_eq!(
        ok_shapes("0x1F_a 0b1_01 0o17 0x"),
        vec![
            "Literal(Numeric(\"0x1Fa\"))",
            "Literal(Numeric(\"0b101\"))",
            "Literal(Numeric(\"0o17\"))",
            "Literal(Numeric(\"0x\"))",
            "Eof"
        ]
    );
    assert_eq!(
        ok_shapes("(0xff)"),
        vec!["Delimiter(LParen)", "Literal(Numeric(\"0xff\"))", "Delimiter(RParen)", "Eof"]
    );
}

#[test]
fn prefixed_literal_ends_at_form_feed() {
    let (toks, r) = lex_all("0x1\u{c}");
    assert_eq!(shapes(&toks), vec!["Literal(Numeric(\"0x1\"))"]);
    match r {
        Err(LexError::UnexpectedCharacter { found, span }) => {
            assert_eq!(found, '\u{c}');
            assert_eq!((span.line, span.col), (1, 4));
        }
        other => panic!("{:?}", other),
    }
}

#[test]
fn invalid_prefixed_literals() {
    match err_of("x = 0xZ1") {
        LexError::InvalidNumericLiteral { radix, text, found, span } => {
            assert_eq!(radix, Radix::Hexadecimal);
            assert_eq!(text, "0x");
            assert_eq!(found, 'Z');
            assert_eq!((span.line, span.col), (1, 5));
        }
        other => panic!("{:?}", other),
    }
    match err_of("0b102") {
        LexError::InvalidNumericLiteral { radix, text, found, .. } => {
            assert_eq!(radix, Radix::Binary);
            assert_eq!(text, "0b10");
            assert_eq!(found, '2');
        }
        other => panic!("{:?}", other),
    }
    match err_of("0o78") {
        LexError::InvalidNumericLiteral { radix, text, found, .. } => {
            assert_eq!(radix, Radix::Octal);
            assert_eq!(text, "0o7");
            assert_eq!(found, '8');
        }
        other => panic!("{:?}", other),
    }
    match err_of("0x1\u{b}") {
        LexError::InvalidNumericLiteral { found, .. } => assert_eq!(found, '\u{b}'),
        other => panic!("{:?}", other),
    }
}

#[test]
fn signed_numbers_depend_on_previous_token() {
    assert_eq!(ok_shapes("-5"), vec!["Literal(Numeric(\"-5\"))", "Eof"]);
    assert_eq!(
        ok_shapes("x -5"),
        vec!["Identifier(\"x\")", "Operator(Minus)", "Literal(Numeric(\"5\"))", "Eof"]
    );
    assert_eq!(
        ok_shapes("(-0x1f, -2.5)"),
        vec![
            "Delimiter(LParen)",
            "Literal(Numeric(\"-0x1f\"))",
            "Delimiter(Comma)",
            "Literal(Numeric(\"-2.5\"))",
            "Delimiter(RParen)",
            "Eof"
        ]
    );
    assert_eq!(
        ok_shapes("a = -1; b) -1"),
        vec![
            "Identifier(\"a\")",
            "Operator(Assign)",
            "Literal(Numeric(\"-1\"))",
            "Delimiter(Semicolon)",
            "Identifier(\"b\")",
            "Delimiter(RParen)",
            "Operator(Minus)",
            "Literal(Numeric(\"1\"))",
            "Eof"
        ]
    );
    assert_eq!(ok_shapes("return -3"), vec!["Identifier(\"return\")", "Operator(Minus)", "Literal(Numeric(\"3\"))", "Eof"]);
    assert_eq!(ok_shapes("if -3"), vec!["Keyword(If)", "Literal(Numeric(\"-3\"))", "Eof"]);
    assert_eq!(ok_shapes("- 3"), vec!["Operator(Minus)", "Literal(Numeric(\"3\"))", "Eof"]);
}

#[test]
fn signed_number_after_earlier_tokens() {
    let mut lexer = Lexer::new("-1".to_string());
    lexer.tokens.push((Token::Identifier("y".to_string()), Span { line: 9, col: 9 }));
    assert!(lexer.tokenize().is_ok());
    assert_eq!(
        shapes(&lexer.tokens),
        vec!["Identifier(\"y\")", "Operator(Minus)", "Literal(Numeric(\"1\"))", "Eof"]
    );
}

#[test]
fn comments_are_skipped() {
    let (toks, r) = lex_all("a // note\nb /* one /* two */ still */ c /**/ d/=e");
    assert!(r.is_ok());
    assert_eq!(
        shapes(&toks),
        vec![
            "Identifier(\"a\")",
            "Identifier(\"b\")",
            "Identifier(\"c\")",
            "Identifier(\"d\")",
            "Operator(DivAssign)",
            "Identifier(\"e\")",
            "Eof"
        ]
    );
    assert_eq!(spans(&toks)[1], (2, 1));
    assert_eq!(ok_shapes("x // trailing"), vec!["Identifier(\"x\")", "Eof"]);
}

#[test]
fn unterminated_block_comment() {
    let (toks, r) = lex_all("a\n /* /* */");
    assert_eq!(shapes(&toks), vec!["Identifier(\"a\")"]);
    match r {
        Err(LexError::UnterminatedBlockComment { span }) => assert_eq!((span.line, span.col), (2, 2)),
        other => panic!("{:?}", other),
    }
}

#[test]
fn character_literals() {
    assert_eq!(
        ok_shapes(r"'a' '\n' '\'' '\\' '\0' '\r' '\t' '\u{22}'".replace("\\u{22}", "\\\"").as_str()),
        vec![
            "Literal(Char('a'))",
            "Literal(Char('\\n'))",
            "Literal(Char('\\''))",
            "Literal(Char('\\\\'))",
            "Literal(Char('\\0'))",
            "Literal(Char('\\r'))",
            "Literal(Char('\\t'))",
            "Literal(Char('\"'))",
            "Eof"
        ]
    );
}

#[test]
fn invalid_character_literals() {
    match err_of("'ab'") {
        LexError::InvalidCharLiteral { text, span } => {
            assert_eq!(text, "ab");
            assert_eq!((span.line, span.col), (1, 1));
        }
        other => panic!("{:?}", other),
    }
    match err_of("''") {
        LexError::InvalidCharLiteral { text, .. } => assert_eq!(text, ""),
        other => panic!("{:?}", other),
    }
    match err_of("'\u{e9}'") {
        LexError::InvalidCharLiteral { text, .. } => assert_eq!(text, "\u{e9}"),
        other => panic!("{:?}", other),
    }
    assert!(matches!(err_of("'a"), LexError::UnterminatedChar { .. }));
    assert!(matches!(err_of("'\\"), LexError::UnterminatedChar { .. }));
    match err_of("x '\\q'") {
        LexError::InvalidEscape { found, span } => {
            assert_eq!(found, 'q');
            assert_eq!((span.line, span.col), (1, 3));
        }
        other => panic!("{:?}", other),
    }
}

#[test]
fn string_literals() {
    let (toks, r) = lex_all("s = \"hi\\tthere \\\"q\\\" caf\u{e9}\";");
    assert!(r.is_ok());
    match &toks[2].0 {
        Token::Literal(Literal::String(s)) => assert_eq!(s, "hi\tthere \"q\" caf\u{e9}"),
        other => panic!("{:?}", other),
    }
    assert_eq!(ok_shapes("\"\""), vec!["Literal(String(\"\"))", "Eof"]);
}

#[test]
fn invalid_string_literals() {
    match err_of("a \"open") {
        LexError::UnterminatedString { span } => assert_eq!((span.line, span.col), (1, 3)),
        other => panic!("{:?}", other),
    }
    assert!(matches!(err_of("\"\\"), LexError::UnterminatedString { .. }));
    match err_of("\"bad \\x\"") {
        LexError::InvalidEscape { found, .. } => assert_eq!(found, 'x'),
        other => panic!("{:?}", other),
    }
}

#[test]
fn unexpected_character_keeps_earlier_tokens() {
    let (toks, r) = lex_all("a + @b");
    assert_eq!(shapes(&toks), vec!["Identifier(\"a\")", "Operator(Plus)"]);
    match r {
        Err(LexError::UnexpectedCharacter { found, span }) => {
            assert_eq!(found, '@');
            assert_eq!((span.line, span.col), (1, 5));
        }
        other => panic!("{:?}", other),
    }
    assert!(matches!(err_of("\u{e9}"), LexError::UnexpectedCharacter { found: '\u{e9}', .. }));
}

#[test]
fn non_ascii_text_counts_columns_by_character() {
    let (toks, r) = lex_all("\"\u{e9}\u{e9}\" x");
    assert!(r.is_ok());
    assert_eq!(spans(&toks), vec![(1, 1), (1, 6), (1, 7)]);
}

#[test]
fn delimiter_equality() {
    assert_eq!(Delimiter::Comma, Delimiter::Comma);
    assert_ne!(Delimiter::LParen, Delimiter::RParen);
    assert!(matches!(Token::Operator(Operator::Plus), Token::Operator(Operator::Plus)));
}

#[test]
fn tokenize_resumes_after_an_error() {
    let mut lexer = Lexer::new("a @ b".to_string());
    assert!(matches!(lexer.tokenize(), Err(LexError::UnexpectedCharacter { found: '@', .. })));
    assert!(lexer.tokenize().is_ok());
    assert_eq!(shapes(&lexer.tokens), vec!["Identifier(\"a\")", "Identifier(\"b\")", "Eof"]);
    assert_eq!(spans(&lexer.tokens), vec![(1, 1), (1, 5), (1, 6)]);

    let mut lexer = Lexer::new("0xZ1".to_string());
    assert!(matches!(lexer.tokenize(), Err(LexError::InvalidNumericLiteral { .. })));
    assert!(lexer.tokenize().is_ok());
    assert_eq!(shapes(&lexer.tokens), vec!["Identifier(\"Z1\")", "Eof"]);
    assert_eq!(spans(&lexer.tokens), vec![(1, 3), (1, 5)]);
}

#[test]
fn span_text_form() {
    assert_eq!(Span { line: 1, col: 1 }.to_string(), "1:1");
    assert_eq!(Span { line: 120, col: 7 }.to_string(), "120:7");
    assert_eq!(Span { line: 10, col: 305 }.to_string(), "10:305");
}

#[test]
fn error_messages() {
    let sp = Span { line: 3, col: 14 };
    let cases: Vec<(LexError, &str)> = vec![
        (LexError::InvalidKeyword("lets".to_string()), "Invalid keyword: lets"),
        (
            LexError::InvalidNumericLiteral { radix: Radix::Hexadecimal, text: "0x1".to_string(), found: 'g', span: sp },
            "Invalid hexadecimal literal: 0x1g at 3:14",
        ),
        (
            LexError::InvalidNumericLiteral { radix: Radix::Binary, text: "0b".to_string(), found: '2', span: sp },
            "Invalid binary literal: 0b2 at 3:14",
        ),
        (
            LexError::InvalidNumericLiteral { radix: Radix::Octal, text: "-0o7".to_string(), found: '9', span: sp },
            "Invalid octal literal: -0o79 at 3:14",
        ),
        (LexError::UnterminatedBlockComment { span: sp }, "Unterminated block comment starting at 3:14"),
        (LexError::InvalidEscape { found: 'q', span: sp }, "Invalid escape sequence: \\q at 3:14"),
        (LexError::UnterminatedChar { span: sp }, "Unterminated character literal at 3:14"),
        (
            LexError::InvalidCharLiteral { text: "ab".to_string(), span: sp },
            "Invalid character literal: 'ab' at 3:14",
        ),
        (LexError::UnterminatedString { span: sp }, "Unterminated string literal at 3:14"),
        (LexError::UnexpectedCharacter { found: '@', span: sp }, "Unexpected character: '@' at 3:14"),
    ];
    for (e, msg) in cases {
        assert_eq!(e.message(), msg);
    }
    assert_eq!(err_of("x\n  @").message(), "Unexpected character: '@' at 2:3");
}

#[test]
fn tokens_accessors() {
    let mut lexer = Lexer::new("a b".to_string());
    assert!(lexer.tokenize().is_ok());
    assert_eq!(shapes(lexer.tokens()), vec!["Identifier(\"a\")", "Identifier(\"b\")", "Eof"]);
    let toks = lexer.into_tokens();
    assert_eq!(spans(&toks), vec![(1, 1), (1, 3), (1, 4)]);
}

#[test]
fn words_only_text_gives_one_token_per_word() {
    assert_eq!(
        ok_shapes("  while\tfoo_Bar\r\n true  _ in\n"),
        vec![
            "Keyword(While)",
            "Identifier(\"foo_Bar\")",
            "Literal(Boolean(true))",
            "Identifier(\"_\")",
            "Keyword(In)",
            "Eof"
        ]
    );
}

#[test]
fn token_spans_are_their_start_positions() {
    let src = "ab /*c*/ 'x'\n  -12 >>= \"s\"";
    let (toks, r) = lex_all(src);
    assert!(r.is_ok());
    assert_eq!(spans(&toks), vec![(1, 1), (1, 10), (2, 3), (2, 4), (2, 7), (2, 11), (2, 14)]);
    assert_eq!(shapes(&toks)[2], "Operator(Minus)");
}
