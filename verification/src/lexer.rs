//! The lexer: turns the characters of a source text into tokens, each with
//! the line and column at which it starts.

use vstd::prelude::*;

use crate::lex_spec::{
    can_start_signed, char_at, classify_word, col_at, decimal_text, digit_char, message_text,
    span_text, keyword_of, last_token, lemma_line_col_bounds,
    lex, line_at, punct, scan, scan_decimal, scan_number, scan_quoted, scan_radix, scan_word,
    skip_block_comment, skip_line_comment, span_at, tokens_view, unterminated, SpecLexError,
    SpecLiteral, SpecScan, SpecToken,
};
use crate::text::{
    chars_of, ends_radix_literal, escape_of, is_binary_digit, is_blank, is_digit, is_hex_digit,
    is_ident_continue, is_ident_start, is_numeric_suffix, is_octal_digit, push_char, same_chars, string_of,
};

verus! {

/// A position in the source text: line and column, both counted from 1.
#[derive(Debug, Clone, Copy, PartialEq, Eq, Structural)]
pub struct Span {
    pub line: usize,
    pub col: usize,
}

/// A token of the language.
#[derive(Debug, Clone)]
pub enum Token {
    Identifier(String),
    Keyword(Keyword),
    Literal(Literal),
    Operator(Operator),
    Delimiter(Delimiter),
    Eof,
}

/// A reserved word.
#[derive(Debug, Clone, Copy)]
pub enum Keyword {
    As,
    Break,
    Const,
    Continue,
    Else,
    Enum,
    Extern,
    Fn,
    For,
    If,
    In,
    Let,
    Loop,
    Match,
    Mod,
    Static,
    Struct,
    Type,
    Use,
    While,
}

/// A literal value as written in the source.
#[derive(Debug, Clone)]
pub enum Literal {
    /// The text of a number: its sign, digits, radix prefix, dot and suffix,
    /// without the `_` separators.
    Numeric(String),
    Boolean(bool),
    /// The contents of a string literal, escapes resolved.
    String(String),
    Char(char),
}

/// An operator.
#[derive(Debug, Clone, Copy)]
pub enum Operator {
    Plus,  // +
    Minus,  // -
    Asterisk,  // *
    Slash,  // /
    Percent,  // %
    Assign,  // =
    Equal,  // ==
    NotEqual,  // !=
    Greater,  // >
    Less,  // <
    GreaterEqual,  // >=
    LessEqual,  // <=
    LogicalAnd,  // &&
    LogicalOr,  // ||
    Exclem,  // !
    Ampersand,  // &
    Pipe,  // |
    Xor,  // ^
    LShift,  // <<
    RShift,  // >>
    AddAssign,  // +=
    SubAssign,  // -=
    MulAssign,  // *=
    DivAssign,  // /=
    ModAssign,  // %=
    BitAndAssign,  // &=
    BitOrAssign,  // |=
    BitXorAssign,  // ^=
    LShiftAssign,  // <<=
    RShiftAssign,  // >>=
    Question,  // ?
}

/// A delimiter.
#[derive(Debug, Clone, Copy, PartialEq, Eq, Structural)]
pub enum Delimiter {
    LParen,  // (
    RParen,  // )
    LBrace,  // {
    RBrace,  // }
    LBracket,  // [
    RBracket,  // ]
    LAngle,  // < generics, reserved for future use
    RAngle,  // > generics, reserved for future use
    Semicolon,  // ;
    Colon,  // :
    DoubleColon,  // ::
    ThinArrow,  // ->
    ThickArrow,  // =>
    Comma,  // ,
    Dot,  // .
}

/// The base of a prefixed numeric literal (`0x`, `0b`, `0o`).
#[derive(Debug, Clone, Copy, PartialEq, Eq, Structural)]
pub enum Radix {
    Hexadecimal,
    Binary,
    Octal,
}

/// Why the lexer stopped.
#[derive(Debug, Clone)]
pub enum LexError {
    /// `Keyword::from` was given a word that is no keyword.
    InvalidKeyword(String),
    /// A prefixed literal met a character that is neither a digit of its
    /// base, nor `_`, nor a character that may follow a literal.
    InvalidNumericLiteral { radix: Radix, text: String, found: char, span: Span },
    /// A `/*` comment has no matching `*/`.
    UnterminatedBlockComment { span: Span },
    /// A backslash in a quoted literal is followed by a character that names no escape.
    InvalidEscape { found: char, span: Span },
    /// A character literal has no closing quote.
    UnterminatedChar { span: Span },
    /// A character literal does not hold exactly one single-byte character.
    InvalidCharLiteral { text: String, span: Span },
    /// A string literal has no closing quote.
    UnterminatedString { span: Span },
    /// A character that begins no token.
    UnexpectedCharacter { found: char, span: Span },
}

/// The base that a prefix letter after `0` selects: `x`, `b` or `o`.
#[verifier::allow_in_spec]
pub fn radix_of_prefix(c: char) -> Option<Radix>
    returns
        if c == 'x' {
            Some(Radix::Hexadecimal)
        } else if c == 'b' {
            Some(Radix::Binary)
        } else if c == 'o' {
            Some(Radix::Octal)
        } else {
            None
        },
{
    if c == 'x' {
        Some(Radix::Hexadecimal)
    } else if c == 'b' {
        Some(Radix::Binary)
    } else if c == 'o' {
        Some(Radix::Octal)
    } else {
        None
    }
}

/// Whether `c` is a digit of the given base.
#[verifier::allow_in_spec]
pub fn is_radix_digit(radix: Radix, c: char) -> bool
    returns
        match radix {
            Radix::Hexadecimal => is_hex_digit(c),
            Radix::Binary => is_binary_digit(c),
            Radix::Octal => is_octal_digit(c),
        },
{
    match radix {
        Radix::Hexadecimal => is_hex_digit(c),
        Radix::Binary => is_binary_digit(c),
        Radix::Octal => is_octal_digit(c),
    }
}

/// The lexer's state: the source text, the position reached in it (with its
/// line and column), and the tokens produced so far.
pub struct Lexer {
    source: String,
    position: usize,
    line: usize,
    col: usize,
    pub tokens: Vec<(Token, Span)>,
}

impl Lexer {
    /// The characters of the source text.
    pub closed spec fn source_chars(&self) -> Seq<char> {
        self.source@
    }

    /// The tokens produced so far, each with its span.
    pub closed spec fn token_list(&self) -> Seq<(Token, Span)> {
        self.tokens@
    }

    /// The position (a character index) that lexing has reached.
    pub closed spec fn pos(&self) -> int {
        self.position as int
    }

    /// The position lies within the text, and the line and column are
    /// those of the position. The text is shorter than `usize::MAX`
    /// characters, so that lines and columns fit in a `usize`.
    pub closed spec fn wf(&self) -> bool {
        &&& self.source@.len() < usize::MAX
        &&& self.position <= self.source@.len()
        &&& self.line == line_at(self.source@, self.position as int)
        &&& self.col == col_at(self.source@, self.position as int)
    }

    /// The tokens produced so far, each with its span.
    pub fn tokens(&self) -> (r: &Vec<(Token, Span)>)
        ensures
            r@ == self.token_list(),
    {
        &self.tokens
    }

    /// The tokens produced, each with its span, taken out of the lexer.
    pub fn into_tokens(self) -> (r: Vec<(Token, Span)>)
        ensures
            r@ == self.token_list(),
    {
        self.tokens
    }

    /// A lexer at the start of `source`, with no tokens.
    pub fn new(source: String) -> (lexer: Self)
        requires
            source@.len() < usize::MAX,
        ensures
            lexer.wf(),
            lexer.source_chars() == source@,
            lexer.pos() == 0,
            lexer.token_list() == Seq::<(Token, Span)>::empty(),
    {
        Lexer { source, position: 0, line: 1, col: 1, tokens: Vec::new() }
    }

    /// Moves `amount` characters forward, or to the end of the text if that
    /// comes first, keeping line and column up to date.
    fn advance(&mut self, chars: &[char], amount: usize)
        requires
            old(self).wf(),
            chars@ == old(self).source@,
        ensures
            final(self).wf(),
            final(self).source == old(self).source,
            final(self).tokens == old(self).tokens,
            final(self).position == (if old(self).position + amount <= chars.len() {
                old(self).position + amount
            } else {
                chars.len() as int
            }),
    {
        let ghost p0 = self.position as int;
        let mut i: usize = 0;
        while i < amount
            invariant
                self.wf(),
                chars@ == self.source@,
                self.source == old(self).source,
                self.tokens == old(self).tokens,
                p0 == old(self).position,
                i <= amount,
                self.position == (if p0 + i <= chars.len() {
                    p0 + i
                } else {
                    chars.len() as int
                }),
            decreases amount - i,
        {
            if self.position < chars.len() {
                let c = chars[self.position];
                proof {
                    lemma_line_col_bounds(chars@, self.position as int);
                }
                if c == '\n' {
                    self.line = self.line + 1;
                    self.col = 1;
                } else {
                    self.col = self.col + 1;
                }
                self.position = self.position + 1;
            }
            i = i + 1;
        }
    }

    /// Reads identifier characters into `text`.
    fn lex_word(&mut self, chars: &[char], text: &mut Vec<char>)
        requires
            old(self).wf(),
            chars@ == old(self).source@,
        ensures
            final(self).wf(),
            final(self).source == old(self).source,
            final(self).tokens == old(self).tokens,
            old(self).position <= final(self).position,
            (final(text)@, final(self).position as int) == scan_word(
                chars@,
                old(self).position as int,
                old(text)@,
            ),
    {
        let ghost goal = scan_word(chars@, self.position as int, text@);
        while self.position < chars.len() && is_ident_continue(chars[self.position])
            invariant
                self.wf(),
                chars@ == self.source@,
                goal == scan_word(chars@, old(self).position as int, old(text)@),
                self.source == old(self).source,
                self.tokens == old(self).tokens,
                old(self).position <= self.position,
                scan_word(chars@, self.position as int, text@) == goal,
            decreases chars.len() - self.position,
        {
            text.push(chars[self.position]);
            self.advance(chars, 1);
        }
    }

    /// Reads the rest of a decimal literal into `text`.
    fn lex_decimal(&mut self, chars: &[char], text: &mut Vec<char>)
        requires
            old(self).wf(),
            chars@ == old(self).source@,
        ensures
            final(self).wf(),
            final(self).source == old(self).source,
            final(self).tokens == old(self).tokens,
            old(self).position <= final(self).position,
            (final(text)@, final(self).position as int) == scan_decimal(
                chars@,
                old(self).position as int,
                old(text)@,
                false,
            ),
    {
        let ghost goal = scan_decimal(chars@, self.position as int, text@, false);
        let mut has_dot = false;
        while self.position < chars.len()
            invariant_except_break
                scan_decimal(chars@, self.position as int, text@, has_dot) == goal,
            invariant
                self.wf(),
                chars@ == self.source@,
                goal == scan_decimal(chars@, old(self).position as int, old(text)@, false),
                self.source == old(self).source,
                self.tokens == old(self).tokens,
                old(self).position <= self.position,
            ensures
                (text@, self.position as int) == goal,
            decreases chars.len() - self.position,
        {
            let next_char = chars[self.position];
            if is_numeric_suffix(next_char) {
                self.advance(chars, 1);
                text.push(next_char);
                break;
            }
            if next_char == '.' {
                if has_dot {
                    break;
                }
                has_dot = true;
                self.advance(chars, 1);
                text.push(next_char);
            } else if is_digit(next_char) {
                self.advance(chars, 1);
                text.push(next_char);
            } else if next_char == '_' {
                self.advance(chars, 1);
            } else {
                break;
            }
        }
    }

    /// Reads the rest of a literal of the given base into `text`.
    fn lex_radix(&mut self, chars: &[char], text: &mut Vec<char>, radix: Radix, span: Span) -> (r:
        Result<(), LexError>)
        requires
            old(self).wf(),
            chars@ == old(self).source@,
        ensures
            final(self).wf(),
            final(self).source == old(self).source,
            final(self).tokens == old(self).tokens,
            old(self).position <= final(self).position,
            match scan_radix(chars@, old(self).position as int, old(text)@, radix, span) {
                Ok((t, e)) => r is Ok && final(text)@ == t && final(self).position == e,
                Err((err, e)) => r matches Err(x) && x@ == err && final(self).position == e,
            },
    {
        let ghost goal = scan_radix(chars@, self.position as int, text@, radix, span);
        while self.position < chars.len()
            invariant
                self.wf(),
                chars@ == self.source@,
                goal == scan_radix(chars@, old(self).position as int, old(text)@, radix, span),
                self.source == old(self).source,
                self.tokens == old(self).tokens,
                old(self).position <= self.position,
                scan_radix(chars@, self.position as int, text@, radix, span) == goal,
            decreases chars.len() - self.position,
        {
            let digit = chars[self.position];
            if is_radix_digit(radix, digit) {
                self.advance(chars, 1);
                text.push(digit);
            } else if digit == '_' {
                self.advance(chars, 1);
            } else if ends_radix_literal(digit) {
                return Ok(());
            } else {
                return Err(
                    LexError::InvalidNumericLiteral {
                        radix,
                        text: string_of(text.as_slice()),
                        found: digit,
                        span,
                    },
                );
            }
        }
        Ok(())
    }

    /// Reads a number whose first digit `first` was just read, with `text`
    /// holding what was read of it.
    fn lex_number(&mut self, chars: &[char], text: Vec<char>, first: char, span: Span) -> (r:
        Result<Token, LexError>)
        requires
            old(self).wf(),
            chars@ == old(self).source@,
        ensures
            final(self).wf(),
            final(self).source == old(self).source,
            final(self).tokens == old(self).tokens,
            old(self).position <= final(self).position,
            match scan_number(chars@, old(self).position as int, text@, first, span) {
                SpecScan::Emit(t, e) => r matches Ok(tok) && tok@ == t && final(self).position == e,
                SpecScan::Fail(err, e) => r matches Err(x) && x@ == err && final(self).position == e,
                SpecScan::Skip(_) => false,
            },
    {
        let mut text = text;
        if first == '0' && self.position < chars.len() {
            let prefix = chars[self.position];
            match radix_of_prefix(prefix) {
                Some(radix) => {
                    self.advance(chars, 1);
                    text.push(prefix);
                    let res = self.lex_radix(chars, &mut text, radix, span);
                    match res {
                        Ok(()) => {
                            return Ok(Token::Literal(Literal::Numeric(string_of(text.as_slice()))));
                        },
                        Err(e) => {
                            return Err(e);
                        },
                    }
                },
                None => {},
            }
        }
        self.lex_decimal(chars, &mut text);
        Ok(Token::Literal(Literal::Numeric(string_of(text.as_slice()))))
    }

    /// Skips the rest of a line comment, up to and including the line feed.
    fn skip_line_comment(&mut self, chars: &[char])
        requires
            old(self).wf(),
            chars@ == old(self).source@,
        ensures
            final(self).wf(),
            final(self).source == old(self).source,
            final(self).tokens == old(self).tokens,
            old(self).position <= final(self).position,
            final(self).position == skip_line_comment(chars@, old(self).position as int),
    {
        let ghost goal = skip_line_comment(chars@, self.position as int);
        while self.position < chars.len()
            invariant_except_break
                skip_line_comment(chars@, self.position as int) == goal,
            invariant
                self.wf(),
                chars@ == self.source@,
                goal == skip_line_comment(chars@, old(self).position as int),
                self.source == old(self).source,
                self.tokens == old(self).tokens,
                old(self).position <= self.position,
            ensures
                self.position == goal,
            decreases chars.len() - self.position,
        {
            let next_char = chars[self.position];
            self.advance(chars, 1);
            if next_char == '\n' {
                break;
            }
        }
    }

    /// Skips the rest of a block comment, whose opening `/*` was just read;
    /// nested comments must be closed too.
    fn skip_block_comment(&mut self, chars: &[char], span: Span) -> (r: Result<(), LexError>)
        requires
            old(self).wf(),
            chars@ == old(self).source@,
        ensures
            final(self).wf(),
            final(self).source == old(self).source,
            final(self).tokens == old(self).tokens,
            old(self).position <= final(self).position,
            match skip_block_comment(chars@, old(self).position as int, 1, span) {
                Ok(e) => r is Ok && final(self).position == e,
                Err((err, e)) => r matches Err(x) && x@ == err && final(self).position == e,
            },
    {
        let ghost goal = skip_block_comment(chars@, self.position as int, 1, span);
        let mut depth: usize = 1;
        while depth > 0
            invariant
                self.wf(),
                chars@ == self.source@,
                goal == skip_block_comment(chars@, old(self).position as int, 1, span),
                self.source == old(self).source,
                self.tokens == old(self).tokens,
                old(self).position <= self.position,
                depth <= self.position + 1,
                skip_block_comment(chars@, self.position as int, depth as nat, span) == goal,
            decreases chars.len() - self.position,
        {
            if self.position >= chars.len() {
                return Err(LexError::UnterminatedBlockComment { span });
            }
            let next_char = chars[self.position];
            self.advance(chars, 1);
            if next_char == '/' && self.position < chars.len() && chars[self.position] == '*' {
                self.advance(chars, 1);
                depth = depth + 1;
            } else if next_char == '*' && self.position < chars.len() && chars[self.position]
                == '/' {
                self.advance(chars, 1);
                depth = depth - 1;
            }
        }
        Ok(())
    }

    /// Reads the contents of a quoted literal, whose opening `quote` was just
    /// read, up to and including the closing quote.
    fn lex_quoted(&mut self, chars: &[char], quote: char, span: Span) -> (r: Result<
        Vec<char>,
        LexError,
    >)
        requires
            old(self).wf(),
            chars@ == old(self).source@,
        ensures
            final(self).wf(),
            final(self).source == old(self).source,
            final(self).tokens == old(self).tokens,
            old(self).position <= final(self).position,
            match scan_quoted(chars@, old(self).position as int, seq![], quote, span) {
                Ok((t, e)) => r matches Ok(v) && v@ == t && final(self).position == e,
                Err((err, e)) => r matches Err(x) && x@ == err && final(self).position == e,
            },
    {
        let ghost goal = scan_quoted(chars@, self.position as int, seq![], quote, span);
        let mut contents: Vec<char> = Vec::new();
        while self.position < chars.len()
            invariant
                self.wf(),
                chars@ == self.source@,
                goal == scan_quoted(chars@, old(self).position as int, seq![], quote, span),
                self.source == old(self).source,
                self.tokens == old(self).tokens,
                old(self).position <= self.position,
                scan_quoted(chars@, self.position as int, contents@, quote, span) == goal,
            decreases chars.len() - self.position,
        {
            let next_char = chars[self.position];
            self.advance(chars, 1);
            if next_char == quote {
                return Ok(contents);
            }
            if next_char == '\\' {
                if self.position < chars.len() {
                    let escaped_char = chars[self.position];
                    self.advance(chars, 1);
                    match escape_of(escaped_char) {
                        Some(e) => contents.push(e),
                        None => {
                            return Err(LexError::InvalidEscape { found: escaped_char, span });
                        },
                    }
                } else {
                    return Err(unterminated_error(quote, span));
                }
            } else {
                contents.push(next_char);
            }
        }
        Err(unterminated_error(quote, span))
    }

    /// Whether a `-` directly followed by a digit starts a negative number
    /// here, judged by the last token produced.
    fn can_start_signed_number(&self) -> (r: bool)
        ensures
            r == can_start_signed(last_token(tokens_view(self.tokens@))),
    {
        let n = self.tokens.len();
        if n == 0 {
            return true;
        }
        let ghost tv = tokens_view(self.tokens@);
        assert(tv.last().0 == self.tokens@[n - 1].0@);
        match &self.tokens[n - 1].0 {
            Token::Operator(_) | Token::Keyword(_) => true,
            Token::Delimiter(delim) => match delim {
                Delimiter::LParen | Delimiter::LBrace | Delimiter::LBracket | Delimiter::Comma
                | Delimiter::Colon | Delimiter::DoubleColon | Delimiter::ThinArrow
                | Delimiter::ThickArrow | Delimiter::Semicolon => true,
                _ => false,
            },
            _ => false,
        }
    }

    /// One step of the lexer: reads the token (or the whitespace or comment)
    /// that starts at the current position. `Ok(None)` means that nothing
    /// was produced.
    fn scan_token(&mut self, chars: &[char]) -> (r: Result<Option<Token>, LexError>)
        requires
            old(self).wf(),
            chars@ == old(self).source@,
            old(self).position < chars.len(),
        ensures
            final(self).wf(),
            final(self).source == old(self).source,
            final(self).tokens == old(self).tokens,
            r is Ok ==> old(self).position < final(self).position,
            match scan(
                chars@,
                old(self).position as int,
                last_token(tokens_view(old(self).tokens@)),
            ) {
                SpecScan::Skip(e) => r matches Ok(None) && final(self).position == e,
                SpecScan::Emit(t, e) => r matches Ok(Some(tok)) && tok@ == t && final(self).position
                    == e,
                SpecScan::Fail(err, e) => r matches Err(x) && x@ == err && final(self).position == e,
            },
    {
        let ghost p = self.position as int;
        let c = chars[self.position];
        let span = Span { line: self.line, col: self.col };
        proof {
            lemma_line_col_bounds(chars@, p);
            assert(span == span_at(chars@, p));
        }
        let signed_ok = self.can_start_signed_number();
        self.advance(chars, 1);
        let n1: Option<char> = if self.position < chars.len() {
            Some(chars[self.position])
        } else {
            None
        };
        let n2: Option<char> = if self.position + 1 < chars.len() {
            Some(chars[self.position + 1])
        } else {
            None
        };
        assert(n1 == char_at(chars@, p + 1));
        assert(n2 == char_at(chars@, p + 2));
        if is_blank(c) {
            return Ok(None);
        }
        if c == '/' && self.position < chars.len() && chars[self.position] == '/' {
            self.skip_line_comment(chars);
            return Ok(None);
        }
        if c == '/' && self.position < chars.len() && chars[self.position] == '*' {
            self.advance(chars, 1);
            return match self.skip_block_comment(chars, span) {
                Ok(()) => Ok(None),
                Err(e) => Err(e),
            };
        }
        if c == '-' && self.position < chars.len() && is_digit(chars[self.position]) && signed_ok {
            let first_digit = chars[self.position];
            self.advance(chars, 1);
            let mut numeric_literal: Vec<char> = Vec::new();
            numeric_literal.push('-');
            numeric_literal.push(first_digit);
            assert(numeric_literal@ =~= seq!['-', first_digit]);
            return match self.lex_number(chars, numeric_literal, first_digit, span) {
                Ok(t) => Ok(Some(t)),
                Err(e) => Err(e),
            };
        }
        match punctuation(c, n1, n2) {
            Some((t, len)) => {
                self.advance(chars, len - 1);
                return Ok(Some(t));
            },
            None => {},
        }
        if c == '\'' {
            let contents = match self.lex_quoted(chars, '\'', span) {
                Ok(v) => v,
                Err(e) => {
                    return Err(e);
                },
            };
            if contents.len() == 1 && (contents[0] as u32) < 0x80 {
                return Ok(Some(Token::Literal(Literal::Char(contents[0]))));
            } else {
                return Err(
                    LexError::InvalidCharLiteral { text: string_of(contents.as_slice()), span },
                );
            }
        }
        if c == '"' {
            return match self.lex_quoted(chars, '"', span) {
                Ok(v) => Ok(Some(Token::Literal(Literal::String(string_of(v.as_slice()))))),
                Err(e) => Err(e),
            };
        }
        if is_digit(c) {
            let mut numeric_literal: Vec<char> = Vec::new();
            numeric_literal.push(c);
            assert(numeric_literal@ =~= seq![c]);
            return match self.lex_number(chars, numeric_literal, c, span) {
                Ok(t) => Ok(Some(t)),
                Err(e) => Err(e),
            };
        }
        if is_ident_start(c) {
            let mut identifier: Vec<char> = Vec::new();
            identifier.push(c);
            assert(identifier@ =~= seq![c]);
            self.lex_word(chars, &mut identifier);
            return Ok(Some(word_token(identifier)));
        }
        Err(LexError::UnexpectedCharacter { found: c, span })
    }

    /// Lexes the rest of the source text, appending each token with its span
    /// to `tokens`, and at the end an `Eof` token with the span of the end.
    /// Stops at the first error; the tokens produced before it stay.
    pub fn tokenize(&mut self) -> (r: Result<(), LexError>)
        requires
            old(self).wf(),
        ensures
            final(self).wf(),
            final(self).source_chars() == old(self).source_chars(),
            ({
                let (toks, err, end) = lex(
                    old(self).source_chars(),
                    old(self).pos(),
                    tokens_view(old(self).token_list()),
                );
                &&& tokens_view(final(self).token_list()) == toks
                &&& final(self).pos() == end
                &&& match r {
                    Ok(()) => err is None,
                    Err(e) => err == Some(e@),
                }
            }),
            r is Ok ==> final(self).pos() == old(self).source_chars().len(),
    {
        let chars_vec = chars_of(self.source.as_str());
        let chars = chars_vec.as_slice();
        let ghost goal = lex(chars@, self.position as int, tokens_view(self.tokens@));
        while self.position < chars.len()
            invariant
                self.wf(),
                chars@ == self.source@,
                self.source == old(self).source,
                goal == lex(old(self).source@, old(self).position as int, tokens_view(old(self).tokens@)),
                lex(chars@, self.position as int, tokens_view(self.tokens@)) == goal,
            decreases chars.len() - self.position,
        {
            let ghost p = self.position as int;
            let ghost toks = tokens_view(self.tokens@);
            let span = Span { line: self.line, col: self.col };
            proof {
                lemma_line_col_bounds(chars@, p);
                assert(span == span_at(chars@, p));
            }
            match self.scan_token(chars) {
                Err(e) => {
                    return Err(e);
                },
                Ok(None) => {},
                Ok(Some(t)) => {
                    let ghost tv = t@;
                    self.tokens.push((t, span));
                    assert(tokens_view(self.tokens@) =~= toks.push((tv, span)));
                },
            }
        }
        let eof_span = Span { line: self.line, col: self.col };
        proof {
            lemma_line_col_bounds(chars@, self.position as int);
        }
        let ghost toks = tokens_view(self.tokens@);
        self.tokens.push((Token::Eof, eof_span));
        assert(tokens_view(self.tokens@) =~= toks.push((SpecToken::Eof, span_at(chars@, self.position as int))));
        Ok(())
    }
}

/// The keyword whose text is `cs`, if any.
fn keyword_of_chars(cs: &[char]) -> (r: Option<Keyword>)
    ensures
        r == keyword_of(cs@),
{
    if same_chars(cs, &['a', 's']) {
        Some(Keyword::As)
    } else if same_chars(cs, &['b', 'r', 'e', 'a', 'k']) {
        Some(Keyword::Break)
    } else if same_chars(cs, &['c', 'o', 'n', 's', 't']) {
        Some(Keyword::Const)
    } else if same_chars(cs, &['c', 'o', 'n', 't', 'i', 'n', 'u', 'e']) {
        Some(Keyword::Continue)
    } else if same_chars(cs, &['e', 'l', 's', 'e']) {
        Some(Keyword::Else)
    } else if same_chars(cs, &['e', 'n', 'u', 'm']) {
        Some(Keyword::Enum)
    } else if same_chars(cs, &['e', 'x', 't', 'e', 'r', 'n']) {
        Some(Keyword::Extern)
    } else if same_chars(cs, &['f', 'n']) {
        Some(Keyword::Fn)
    } else if same_chars(cs, &['f', 'o', 'r']) {
        Some(Keyword::For)
    } else if same_chars(cs, &['i', 'f']) {
        Some(Keyword::If)
    } else if same_chars(cs, &['i', 'n']) {
        Some(Keyword::In)
    } else if same_chars(cs, &['l', 'e', 't']) {
        Some(Keyword::Let)
    } else if same_chars(cs, &['l', 'o', 'o', 'p']) {
        Some(Keyword::Loop)
    } else if same_chars(cs, &['m', 'a', 't', 'c', 'h']) {
        Some(Keyword::Match)
    } else if same_chars(cs, &['m', 'o', 'd']) {
        Some(Keyword::Mod)
    } else if same_chars(cs, &['s', 't', 'a', 't', 'i', 'c']) {
        Some(Keyword::Static)
    } else if same_chars(cs, &['s', 't', 'r', 'u', 'c', 't']) {
        Some(Keyword::Struct)
    } else if same_chars(cs, &['t', 'y', 'p', 'e']) {
        Some(Keyword::Type)
    } else if same_chars(cs, &['u', 's', 'e']) {
        Some(Keyword::Use)
    } else if same_chars(cs, &['w', 'h', 'i', 'l', 'e']) {
        Some(Keyword::While)
    } else {
        None
    }
}

impl Keyword {
    /// The keyword spelled `s`; any other word is an `InvalidKeyword` error.
    pub fn from(s: &str) -> (r: Result<Self, LexError>)
        ensures
            match keyword_of(s@) {
                Some(k) => r == Ok::<Keyword, LexError>(k),
                None => r matches Err(e) && e@ == SpecLexError::InvalidKeyword(s@),
            },
    {
        let cs = chars_of(s);
        match keyword_of_chars(cs.as_slice()) {
            Some(k) => Ok(k),
            None => Err(LexError::InvalidKeyword(s.to_owned())),
        }
    }
}

/// The decimal digit character for `d`.
fn digit_char_of(d: usize) -> (c: char)
    requires
        d < 10,
    ensures
        c == digit_char(d as int),
{
    if d == 0 {
        '0'
    } else if d == 1 {
        '1'
    } else if d == 2 {
        '2'
    } else if d == 3 {
        '3'
    } else if d == 4 {
        '4'
    } else if d == 5 {
        '5'
    } else if d == 6 {
        '6'
    } else if d == 7 {
        '7'
    } else if d == 8 {
        '8'
    } else {
        '9'
    }
}

/// Appends the decimal form of `n` to `s`.
fn push_decimal(s: &mut String, n: usize)
    ensures
        final(s)@ == old(s)@ + decimal_text(n as nat),
    decreases n,
{
    let ghost s0 = s@;
    if n >= 10 {
        push_decimal(s, n / 10);
    }
    push_char(s, digit_char_of(n % 10));
    proof {
        if n >= 10 {
            assert(s@ =~= s0 + decimal_text(n as nat));
        } else {
            assert(s@ =~= s0 + decimal_text(n as nat));
        }
    }
}

impl Span {
    /// The span as text: `line:col`.
    pub fn to_string(&self) -> (r: String)
        ensures
            r@ == span_text(*self),
    {
        let mut s = String::new();
        push_decimal(&mut s, self.line);
        push_char(&mut s, ':');
        push_decimal(&mut s, self.col);
        assert(s@ =~= span_text(*self));
        s
    }
}

impl LexError {
    /// The message that describes the error.
    pub fn message(&self) -> (r: String)
        ensures
            r@ == message_text(self@),
    {
        match self {
            LexError::InvalidKeyword(word) => {
                let mut s = "Invalid keyword: ".to_owned();
                s.append(word.as_str());
                s
            },
            LexError::InvalidNumericLiteral { radix, text, found, span } => {
                let mut s = "Invalid ".to_owned();
                match radix {
                    Radix::Hexadecimal => s.append("hexadecimal"),
                    Radix::Binary => s.append("binary"),
                    Radix::Octal => s.append("octal"),
                }
                s.append(" literal: ");
                s.append(text.as_str());
                push_char(&mut s, *found);
                s.append(" at ");
                s.append(span.to_string().as_str());
                assert(s@ =~= message_text(self@));
                s
            },
            LexError::UnterminatedBlockComment { span } => {
                let mut s = "Unterminated block comment starting at ".to_owned();
                s.append(span.to_string().as_str());
                s
            },
            LexError::InvalidEscape { found, span } => {
                let mut s = "Invalid escape sequence: \\".to_owned();
                push_char(&mut s, *found);
                s.append(" at ");
                s.append(span.to_string().as_str());
                assert(s@ =~= message_text(self@));
                s
            },
            LexError::UnterminatedChar { span } => {
                let mut s = "Unterminated character literal at ".to_owned();
                s.append(span.to_string().as_str());
                s
            },
            LexError::InvalidCharLiteral { text, span } => {
                let mut s = "Invalid character literal: '".to_owned();
                s.append(text.as_str());
                s.append("' at ");
                s.append(span.to_string().as_str());
                assert(s@ =~= message_text(self@));
                s
            },
            LexError::UnterminatedString { span } => {
                let mut s = "Unterminated string literal at ".to_owned();
                s.append(span.to_string().as_str());
                s
            },
            LexError::UnexpectedCharacter { found, span } => {
                let mut s = "Unexpected character: '".to_owned();
                push_char(&mut s, *found);
                s.append("' at ");
                s.append(span.to_string().as_str());
                assert(s@ =~= message_text(self@));
                s
            },
        }
    }
}

/// The token for a word: `true` and `false` are boolean literals, a
/// keyword's text is that keyword, and any other word is an identifier.
fn word_token(word: Vec<char>) -> (t: Token)
    ensures
        t@ == classify_word(word@),
{
    if same_chars(word.as_slice(), &['t', 'r', 'u', 'e']) {
        Token::Literal(Literal::Boolean(true))
    } else if same_chars(word.as_slice(), &['f', 'a', 'l', 's', 'e']) {
        Token::Literal(Literal::Boolean(false))
    } else {
        match keyword_of_chars(word.as_slice()) {
            Some(k) => Token::Keyword(k),
            None => Token::Identifier(string_of(word.as_slice())),
        }
    }
}

/// The operator or delimiter that starts with `c` given the two characters
/// after it, and its length in characters.
fn punctuation(c: char, n1: Option<char>, n2: Option<char>) -> (r: Option<(Token, usize)>)
    ensures
        match punct(c, n1, n2) {
            Some((t, len)) => r matches Some((tok, l)) && tok@ == t && l == len,
            None => r is None,
        },
{
    let next_is = |x: char| -> (b: bool)
        ensures
            b == (n1 == Some(x)),
        {
            match n1 {
                Some(d) => d == x,
                None => false,
            }
        };
    let after_is = |x: char| -> (b: bool)
        ensures
            b == (n2 == Some(x)),
        {
            match n2 {
                Some(d) => d == x,
                None => false,
            }
        };
    let d = |x: Delimiter, len: usize| -> (r: Option<(Token, usize)>)
        ensures
            r == Some((Token::Delimiter(x), len)),
        { Some((Token::Delimiter(x), len)) };
    let o = |x: Operator, len: usize| -> (r: Option<(Token, usize)>)
        ensures
            r == Some((Token::Operator(x), len)),
        { Some((Token::Operator(x), len)) };
    if c == '(' {
        d(Delimiter::LParen, 1)
    } else if c == ')' {
        d(Delimiter::RParen, 1)
    } else if c == '{' {
        d(Delimiter::LBrace, 1)
    } else if c == '}' {
        d(Delimiter::RBrace, 1)
    } else if c == '[' {
        d(Delimiter::LBracket, 1)
    } else if c == ']' {
        d(Delimiter::RBracket, 1)
    } else if c == ';' {
        d(Delimiter::Semicolon, 1)
    } else if c == ':' {
        if next_is(':') {
            d(Delimiter::DoubleColon, 2)
        } else {
            d(Delimiter::Colon, 1)
        }
    } else if c == ',' {
        d(Delimiter::Comma, 1)
    } else if c == '.' {
        d(Delimiter::Dot, 1)
    } else if c == '=' {
        if next_is('=') {
            o(Operator::Equal, 2)
        } else if next_is('>') {
            d(Delimiter::ThickArrow, 2)
        } else {
            o(Operator::Assign, 1)
        }
    } else if c == '-' {
        if next_is('>') {
            d(Delimiter::ThinArrow, 2)
        } else if next_is('=') {
            o(Operator::SubAssign, 2)
        } else {
            o(Operator::Minus, 1)
        }
    } else if c == '+' {
        if next_is('=') {
            o(Operator::AddAssign, 2)
        } else {
            o(Operator::Plus, 1)
        }
    } else if c == '*' {
        if next_is('=') {
            o(Operator::MulAssign, 2)
        } else {
            o(Operator::Asterisk, 1)
        }
    } else if c == '/' {
        if next_is('=') {
            o(Operator::DivAssign, 2)
        } else {
            o(Operator::Slash, 1)
        }
    } else if c == '%' {
        if next_is('=') {
            o(Operator::ModAssign, 2)
        } else {
            o(Operator::Percent, 1)
        }
    } else if c == '!' {
        if next_is('=') {
            o(Operator::NotEqual, 2)
        } else {
            o(Operator::Exclem, 1)
        }
    } else if c == '>' {
        if next_is('=') {
            o(Operator::GreaterEqual, 2)
        } else if next_is('>') {
            if after_is('=') {
                o(Operator::RShiftAssign, 3)
            } else {
                o(Operator::RShift, 2)
            }
        } else {
            o(Operator::Greater, 1)
        }
    } else if c == '<' {
        if next_is('=') {
            o(Operator::LessEqual, 2)
        } else if next_is('<') {
            if after_is('=') {
                o(Operator::LShiftAssign, 3)
            } else {
                o(Operator::LShift, 2)
            }
        } else {
            o(Operator::Less, 1)
        }
    } else if c == '&' {
        if next_is('=') {
            o(Operator::BitAndAssign, 2)
        } else if next_is('&') {
            o(Operator::LogicalAnd, 2)
        } else {
            o(Operator::Ampersand, 1)
        }
    } else if c == '|' {
        if next_is('=') {
            o(Operator::BitOrAssign, 2)
        } else if next_is('|') {
            o(Operator::LogicalOr, 2)
        } else {
            o(Operator::Pipe, 1)
        }
    } else if c == '^' {
        if next_is('=') {
            o(Operator::BitXorAssign, 2)
        } else {
            o(Operator::Xor, 1)
        }
    } else if c == '?' {
        o(Operator::Question, 1)
    } else {
        None
    }
}

impl Token {
    /// A copy of the token.
    pub(crate) fn duplicate(&self) -> (r: Token)
        ensures
            r@ == self@,
    {
        match self {
            Token::Identifier(s) => Token::Identifier(s.clone()),
            Token::Keyword(k) => Token::Keyword(*k),
            Token::Literal(l) => Token::Literal(
                match l {
                    Literal::Numeric(s) => Literal::Numeric(s.clone()),
                    Literal::Boolean(b) => Literal::Boolean(*b),
                    Literal::String(s) => Literal::String(s.clone()),
                    Literal::Char(c) => Literal::Char(*c),
                },
            ),
            Token::Operator(o) => Token::Operator(*o),
            Token::Delimiter(d) => Token::Delimiter(*d),
            Token::Eof => Token::Eof,
        }
    }
}

/// The error for a quoted literal that has no closing quote.
fn unterminated_error(quote: char, span: Span) -> (e: LexError)
    ensures
        e@ == unterminated(quote, span),
{
    if quote == '\'' {
        LexError::UnterminatedChar { span }
    } else {
        LexError::UnterminatedString { span }
    }
}

impl View for Literal {
    type V = SpecLiteral;

    open spec fn view(&self) -> SpecLiteral {
        match self {
            Literal::Numeric(s) => SpecLiteral::Numeric(s@),
            Literal::Boolean(b) => SpecLiteral::Boolean(*b),
            Literal::String(s) => SpecLiteral::String(s@),
            Literal::Char(c) => SpecLiteral::Char(*c),
        }
    }
}

impl View for Token {
    type V = SpecToken;

    open spec fn view(&self) -> SpecToken {
        match self {
            Token::Identifier(s) => SpecToken::Identifier(s@),
            Token::Keyword(k) => SpecToken::Keyword(*k),
            Token::Literal(l) => SpecToken::Literal(l@),
            Token::Operator(o) => SpecToken::Operator(*o),
            Token::Delimiter(d) => SpecToken::Delimiter(*d),
            Token::Eof => SpecToken::Eof,
        }
    }
}

impl View for LexError {
    type V = SpecLexError;

    open spec fn view(&self) -> SpecLexError {
        match self {
            LexError::InvalidKeyword(s) => SpecLexError::InvalidKeyword(s@),
            LexError::InvalidNumericLiteral { radix, text, found, span } =>
                SpecLexError::InvalidNumericLiteral {
                radix: *radix,
                text: text@,
                found: *found,
                span: *span,
            },
            LexError::UnterminatedBlockComment { span } => SpecLexError::UnterminatedBlockComment {
                span: *span,
            },
            LexError::InvalidEscape { found, span } => SpecLexError::InvalidEscape {
                found: *found,
                span: *span,
            },
            LexError::UnterminatedChar { span } => SpecLexError::UnterminatedChar { span: *span },
            LexError::InvalidCharLiteral { text, span } => SpecLexError::InvalidCharLiteral {
                text: text@,
                span: *span,
            },
            LexError::UnterminatedString { span } => SpecLexError::UnterminatedString {
                span: *span,
            },
            LexError::UnexpectedCharacter { found, span } => SpecLexError::UnexpectedCharacter {
                found: *found,
                span: *span,
            },
        }
    }
}

} // verus!
