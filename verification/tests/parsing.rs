use lpp::lexer::{Lexer, Span, Token};
use lpp::parser::Parser;

#[test]
fn parse_empty_input() {
    let mut parser = Parser::new(Vec::new());
    assert!(parser.parse().is_ok());
}

#[test]
fn parse_input_of_only_eof() {
    let mut parser = Parser::new(vec![(Token::Eof, Span { line: 1, col: 1 })]);
    assert!(parser.parse().is_ok());
    assert!(parser.parse().is_ok());
}

#[test]
fn parse_tokens_of_blank_source() {
    let mut lexer = Lexer::new("  // nothing here\n".to_string());
    assert!(lexer.tokenize().is_ok());
    let mut parser = Parser::new(lexer.tokens);
    assert!(parser.parse().is_ok());
}

#[test]
fn parse_tokens_taken_from_lexer() {
    let mut lexer = Lexer::new("".to_string());
    assert!(lexer.tokenize().is_ok());
    let mut parser = Parser::new(lexer.into_tokens());
    assert!(parser.parse().is_ok());
}
