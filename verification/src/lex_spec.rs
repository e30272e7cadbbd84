//! The mathematical model of the lexer.
//!
//! A source text is a sequence of characters `cs`. Lexing proceeds from a
//! position `p`: `scan` looks at `cs[p]` and the characters after it and
//! either skips them (whitespace, comments), emits one token, or fails.
//! `lex` repeats `scan` until the end of the text and then appends `Eof`.
//! Every token carries the span (line, column) of its first character.

use vstd::prelude::*;

use crate::lexer::{is_radix_digit, radix_of_prefix, Delimiter, Keyword, Operator, Radix, Span, Token};
use crate::text::{ends_radix_literal, escape_of, is_blank, is_digit, is_ident_continue, is_ident_start, is_numeric_suffix};

verus! {

/// The model of `Literal`: strings become character sequences.
pub enum SpecLiteral {
    Numeric(Seq<char>),
    Boolean(bool),
    String(Seq<char>),
    Char(char),
}

/// The model of `Token`: strings become character sequences.
pub enum SpecToken {
    Identifier(Seq<char>),
    Keyword(Keyword),
    Literal(SpecLiteral),
    Operator(Operator),
    Delimiter(Delimiter),
    Eof,
}

/// The model of `LexError`: strings become character sequences.
pub enum SpecLexError {
    InvalidKeyword(Seq<char>),
    InvalidNumericLiteral { radix: Radix, text: Seq<char>, found: char, span: Span },
    UnterminatedBlockComment { span: Span },
    InvalidEscape { found: char, span: Span },
    UnterminatedChar { span: Span },
    InvalidCharLiteral { text: Seq<char>, span: Span },
    UnterminatedString { span: Span },
    UnexpectedCharacter { found: char, span: Span },
}

/// What one step of the lexer does at a position: skip to an end position,
/// emit a token and continue at an end position, or fail, having read up
/// to an end position.
pub enum SpecScan {
    Skip(int),
    Emit(SpecToken, int),
    Fail(SpecLexError, int),
}

/// The character at index `i`, if there is one.
pub open spec fn char_at(cs: Seq<char>, i: int) -> Option<char> {
    if 0 <= i < cs.len() {
        Some(cs[i])
    } else {
        None
    }
}

/// The line of position `p`: one more than the number of line feeds before it.
pub open spec fn line_at(cs: Seq<char>, p: int) -> int
    decreases p,
{
    if p <= 0 {
        1
    } else {
        line_at(cs, p - 1) + if cs[p - 1] == '\n' {
            1int
        } else {
            0int
        }
    }
}

/// The column of position `p`: one more than the number of characters
/// between the last line feed before `p` (or the start) and `p`.
pub open spec fn col_at(cs: Seq<char>, p: int) -> int
    decreases p,
{
    if p <= 0 {
        1
    } else if cs[p - 1] == '\n' {
        1
    } else {
        col_at(cs, p - 1) + 1
    }
}

/// The span of position `p`.
pub open spec fn span_at(cs: Seq<char>, p: int) -> Span {
    Span { line: line_at(cs, p) as usize, col: col_at(cs, p) as usize }
}

/// Lines and columns are at least 1 and at most one more than the position.
pub proof fn lemma_line_col_bounds(cs: Seq<char>, p: int)
    requires
        0 <= p,
    ensures
        1 <= line_at(cs, p) <= p + 1,
        1 <= col_at(cs, p) <= p + 1,
    decreases p,
{
    if p > 0 {
        lemma_line_col_bounds(cs, p - 1);
    }
}

/// The decimal digit character for `d` (`0 <= d < 10`).
pub open spec fn digit_char(d: int) -> char {
    if d == 0 {
        '0'
    } else if d == 1 {
        '1'
    } else if d == 2 {
        '2'
    } else if d == 3 {
        '3'
    } else if d == 4 {
        '4'
    } else if d == 5 {
        '5'
    } else if d == 6 {
        '6'
    } else if d == 7 {
        '7'
    } else if d == 8 {
        '8'
    } else {
        '9'
    }
}

/// The decimal form of `n`, without leading zeros.
pub open spec fn decimal_text(n: nat) -> Seq<char>
    decreases n,
{
    if n < 10 {
        seq![digit_char(n as int)]
    } else {
        decimal_text(n / 10).push(digit_char((n % 10) as int))
    }
}

/// The text form of a span: `line:col`.
pub open spec fn span_text(s: Span) -> Seq<char> {
    decimal_text(s.line as nat) + seq![':'] + decimal_text(s.col as nat)
}

/// The name of a base, as used in messages.
pub open spec fn radix_name(r: Radix) -> Seq<char> {
    match r {
        Radix::Hexadecimal => "hexadecimal"@,
        Radix::Binary => "binary"@,
        Radix::Octal => "octal"@,
    }
}

/// The message that describes a lexing error.
pub open spec fn message_text(e: SpecLexError) -> Seq<char> {
    match e {
        SpecLexError::InvalidKeyword(s) => "Invalid keyword: "@ + s,
        SpecLexError::InvalidNumericLiteral { radix, text, found, span } => "Invalid "@ + radix_name(
            radix,
        ) + " literal: "@ + text + seq![found] + " at "@ + span_text(span),
        SpecLexError::UnterminatedBlockComment { span } => "Unterminated block comment starting at "@
            + span_text(span),
        SpecLexError::InvalidEscape { found, span } => "Invalid escape sequence: \\"@ + seq![found]
            + " at "@ + span_text(span),
        SpecLexError::UnterminatedChar { span } => "Unterminated character literal at "@ + span_text(
            span,
        ),
        SpecLexError::InvalidCharLiteral { text, span } => "Invalid character literal: '"@ + text
            + "' at "@ + span_text(span),
        SpecLexError::UnterminatedString { span } => "Unterminated string literal at "@ + span_text(
            span,
        ),
        SpecLexError::UnexpectedCharacter { found, span } => "Unexpected character: '"@ + seq![found]
            + "' at "@ + span_text(span),
    }
}

/// `a` comes strictly before `b`: on an earlier line, or on the same line
/// at an earlier column.
pub open spec fn span_before(a: Span, b: Span) -> bool {
    a.line < b.line || (a.line == b.line && a.col < b.col)
}

/// The text of a keyword.
pub open spec fn keyword_text(k: Keyword) -> Seq<char> {
    match k {
        Keyword::As => seq!['a', 's'],
        Keyword::Break => seq!['b', 'r', 'e', 'a', 'k'],
        Keyword::Const => seq!['c', 'o', 'n', 's', 't'],
        Keyword::Continue => seq!['c', 'o', 'n', 't', 'i', 'n', 'u', 'e'],
        Keyword::Else => seq!['e', 'l', 's', 'e'],
        Keyword::Enum => seq!['e', 'n', 'u', 'm'],
        Keyword::Extern => seq!['e', 'x', 't', 'e', 'r', 'n'],
        Keyword::Fn => seq!['f', 'n'],
        Keyword::For => seq!['f', 'o', 'r'],
        Keyword::If => seq!['i', 'f'],
        Keyword::In => seq!['i', 'n'],
        Keyword::Let => seq!['l', 'e', 't'],
        Keyword::Loop => seq!['l', 'o', 'o', 'p'],
        Keyword::Match => seq!['m', 'a', 't', 'c', 'h'],
        Keyword::Mod => seq!['m', 'o', 'd'],
        Keyword::Static => seq!['s', 't', 'a', 't', 'i', 'c'],
        Keyword::Struct => seq!['s', 't', 'r', 'u', 'c', 't'],
        Keyword::Type => seq!['t', 'y', 'p', 'e'],
        Keyword::Use => seq!['u', 's', 'e'],
        Keyword::While => seq!['w', 'h', 'i', 'l', 'e'],
    }
}

/// The keyword whose text is `s`, if any.
pub open spec fn keyword_of(s: Seq<char>) -> Option<Keyword> {
    if s == keyword_text(Keyword::As) {
        Some(Keyword::As)
    } else if s == keyword_text(Keyword::Break) {
        Some(Keyword::Break)
    } else if s == keyword_text(Keyword::Const) {
        Some(Keyword::Const)
    } else if s == keyword_text(Keyword::Continue) {
        Some(Keyword::Continue)
    } else if s == keyword_text(Keyword::Else) {
        Some(Keyword::Else)
    } else if s == keyword_text(Keyword::Enum) {
        Some(Keyword::Enum)
    } else if s == keyword_text(Keyword::Extern) {
        Some(Keyword::Extern)
    } else if s == keyword_text(Keyword::Fn) {
        Some(Keyword::Fn)
    } else if s == keyword_text(Keyword::For) {
        Some(Keyword::For)
    } else if s == keyword_text(Keyword::If) {
        Some(Keyword::If)
    } else if s == keyword_text(Keyword::In) {
        Some(Keyword::In)
    } else if s == keyword_text(Keyword::Let) {
        Some(Keyword::Let)
    } else if s == keyword_text(Keyword::Loop) {
        Some(Keyword::Loop)
    } else if s == keyword_text(Keyword::Match) {
        Some(Keyword::Match)
    } else if s == keyword_text(Keyword::Mod) {
        Some(Keyword::Mod)
    } else if s == keyword_text(Keyword::Static) {
        Some(Keyword::Static)
    } else if s == keyword_text(Keyword::Struct) {
        Some(Keyword::Struct)
    } else if s == keyword_text(Keyword::Type) {
        Some(Keyword::Type)
    } else if s == keyword_text(Keyword::Use) {
        Some(Keyword::Use)
    } else if s == keyword_text(Keyword::While) {
        Some(Keyword::While)
    } else {
        None
    }
}

pub open spec fn true_text() -> Seq<char> {
    seq!['t', 'r', 'u', 'e']
}

pub open spec fn false_text() -> Seq<char> {
    seq!['f', 'a', 'l', 's', 'e']
}

/// The token that a word (identifier-shaped text) stands for: a boolean
/// literal, a keyword, or else an identifier.
pub open spec fn classify_word(w: Seq<char>) -> SpecToken {
    if w == true_text() {
        SpecToken::Literal(SpecLiteral::Boolean(true))
    } else if w == false_text() {
        SpecToken::Literal(SpecLiteral::Boolean(false))
    } else if keyword_of(w) is Some {
        SpecToken::Keyword(keyword_of(w)->0)
    } else {
        SpecToken::Identifier(w)
    }
}

/// Reads the rest of a word from `q`: `text` extended with the identifier
/// characters that follow, and the position after them.
pub open spec fn scan_word(cs: Seq<char>, q: int, text: Seq<char>) -> (Seq<char>, int)
    decreases cs.len() - q,
{
    if 0 <= q < cs.len() && is_ident_continue(cs[q]) {
        scan_word(cs, q + 1, text.push(cs[q]))
    } else {
        (text, q)
    }
}

/// Reads the rest of a decimal literal from `q`: digits, at most one dot
/// (a second dot ends the literal), `_` separators that are dropped, and a
/// suffix letter that ends the literal.
pub open spec fn scan_decimal(cs: Seq<char>, q: int, text: Seq<char>, has_dot: bool) -> (
    Seq<char>,
    int,
)
    decreases cs.len() - q,
{
    if q < 0 || q >= cs.len() {
        (text, q)
    } else {
        let d = cs[q];
        if is_numeric_suffix(d) {
            (text.push(d), q + 1)
        } else if d == '.' {
            if has_dot {
                (text, q)
            } else {
                scan_decimal(cs, q + 1, text.push(d), true)
            }
        } else if is_digit(d) {
            scan_decimal(cs, q + 1, text.push(d), has_dot)
        } else if d == '_' {
            scan_decimal(cs, q + 1, text, has_dot)
        } else {
            (text, q)
        }
    }
}

/// Reads the rest of a prefixed literal from `q`: digits of the base and `_`
/// separators (dropped), up to the end of the text or a character that may
/// follow a literal; any other character is an error, which leaves that
/// character unread.
pub open spec fn scan_radix(cs: Seq<char>, q: int, text: Seq<char>, radix: Radix, span: Span) -> Result<
    (Seq<char>, int),
    (SpecLexError, int),
>
    decreases cs.len() - q,
{
    if q < 0 || q >= cs.len() {
        Ok((text, q))
    } else {
        let d = cs[q];
        if is_radix_digit(radix, d) {
            scan_radix(cs, q + 1, text.push(d), radix, span)
        } else if d == '_' {
            scan_radix(cs, q + 1, text, radix, span)
        } else if ends_radix_literal(d) {
            Ok((text, q))
        } else {
            Err((SpecLexError::InvalidNumericLiteral { radix, text, found: d, span }, q))
        }
    }
}

/// Reads a number whose first digit `first` stands just before `q`, with
/// `text` read so far: a `0` followed by `x`, `b` or `o` starts a prefixed
/// literal, anything else a decimal one.
pub open spec fn scan_number(cs: Seq<char>, q: int, text: Seq<char>, first: char, span: Span) -> SpecScan {
    if first == '0' && char_at(cs, q) is Some && radix_of_prefix(cs[q]) is Some {
        match scan_radix(cs, q + 1, text.push(cs[q]), radix_of_prefix(cs[q])->0, span) {
            Ok((t, e)) => SpecScan::Emit(SpecToken::Literal(SpecLiteral::Numeric(t)), e),
            Err((err, e)) => SpecScan::Fail(err, e),
        }
    } else {
        let (t, e) = scan_decimal(cs, q, text, false);
        SpecScan::Emit(SpecToken::Literal(SpecLiteral::Numeric(t)), e)
    }
}

/// The end of a line comment whose text starts at `q`: just after the next
/// line feed, or the end of the text.
pub open spec fn skip_line_comment(cs: Seq<char>, q: int) -> int
    decreases cs.len() - q,
{
    if q < 0 || q >= cs.len() {
        q
    } else if cs[q] == '\n' {
        q + 1
    } else {
        skip_line_comment(cs, q + 1)
    }
}

/// The end of a block comment read from `q` with `depth` comments open:
/// `/*` opens one more, `*/` closes one; the comment ends when none is open.
pub open spec fn skip_block_comment(cs: Seq<char>, q: int, depth: nat, span: Span) -> Result<
    int,
    (SpecLexError, int),
>
    decreases cs.len() - q,
{
    if depth == 0 {
        Ok(q)
    } else if q < 0 || q >= cs.len() {
        Err((SpecLexError::UnterminatedBlockComment { span }, q))
    } else if cs[q] == '/' && char_at(cs, q + 1) == Some('*') {
        skip_block_comment(cs, q + 2, depth + 1, span)
    } else if cs[q] == '*' && char_at(cs, q + 1) == Some('/') {
        skip_block_comment(cs, q + 2, (depth - 1) as nat, span)
    } else {
        skip_block_comment(cs, q + 1, depth, span)
    }
}

/// The error for a quoted literal that has no closing quote.
pub open spec fn unterminated(quote: char, span: Span) -> SpecLexError {
    if quote == '\'' {
        SpecLexError::UnterminatedChar { span }
    } else {
        SpecLexError::UnterminatedString { span }
    }
}

/// Reads the contents of a quoted literal from `q` up to the closing
/// `quote`, resolving escapes: the contents and the position after the
/// closing quote.
pub open spec fn scan_quoted(cs: Seq<char>, q: int, text: Seq<char>, quote: char, span: Span) -> Result<
    (Seq<char>, int),
    (SpecLexError, int),
>
    decreases cs.len() - q,
{
    if q < 0 || q >= cs.len() {
        Err((unterminated(quote, span), q))
    } else if cs[q] == quote {
        Ok((text, q + 1))
    } else if cs[q] == '\\' {
        if q + 1 >= cs.len() {
            Err((unterminated(quote, span), q + 1))
        } else if escape_of(cs[q + 1]) is Some {
            scan_quoted(cs, q + 2, text.push(escape_of(cs[q + 1])->0), quote, span)
        } else {
            Err((SpecLexError::InvalidEscape { found: cs[q + 1], span }, q + 2))
        }
    } else {
        scan_quoted(cs, q + 1, text.push(cs[q]), quote, span)
    }
}

/// Text that is one byte long in UTF-8: exactly one character, and an ASCII one.
pub open spec fn is_one_byte_text(t: Seq<char>) -> bool {
    t.len() == 1 && (t[0] as u32) < 0x80
}

/// Reads a character literal whose contents start at `q`.
pub open spec fn scan_char_literal(cs: Seq<char>, q: int, span: Span) -> SpecScan {
    match scan_quoted(cs, q, seq![], '\'', span) {
        Ok((t, e)) => if is_one_byte_text(t) {
            SpecScan::Emit(SpecToken::Literal(SpecLiteral::Char(t[0])), e)
        } else {
            SpecScan::Fail(SpecLexError::InvalidCharLiteral { text: t, span }, e)
        },
        Err((err, e)) => SpecScan::Fail(err, e),
    }
}

/// Reads a string literal whose contents start at `q`.
pub open spec fn scan_string_literal(cs: Seq<char>, q: int, span: Span) -> SpecScan {
    match scan_quoted(cs, q, seq![], '"', span) {
        Ok((t, e)) => SpecScan::Emit(SpecToken::Literal(SpecLiteral::String(t)), e),
        Err((err, e)) => SpecScan::Fail(err, e),
    }
}

pub open spec fn op(o: Operator, len: int) -> Option<(SpecToken, int)> {
    Some((SpecToken::Operator(o), len))
}

pub open spec fn delim(d: Delimiter, len: int) -> Option<(SpecToken, int)> {
    Some((SpecToken::Delimiter(d), len))
}

/// The operator or delimiter that starts with `c`, given the two characters
/// after it, and how many characters it takes; the longest match wins.
pub open spec fn punct(c: char, n1: Option<char>, n2: Option<char>) -> Option<(SpecToken, int)> {
    if c == '(' {
        delim(Delimiter::LParen, 1)
    } else if c == ')' {
        delim(Delimiter::RParen, 1)
    } else if c == '{' {
        delim(Delimiter::LBrace, 1)
    } else if c == '}' {
        delim(Delimiter::RBrace, 1)
    } else if c == '[' {
        delim(Delimiter::LBracket, 1)
    } else if c == ']' {
        delim(Delimiter::RBracket, 1)
    } else if c == ';' {
        delim(Delimiter::Semicolon, 1)
    } else if c == ':' {
        if n1 == Some(':') {
            delim(Delimiter::DoubleColon, 2)
        } else {
            delim(Delimiter::Colon, 1)
        }
    } else if c == ',' {
        delim(Delimiter::Comma, 1)
    } else if c == '.' {
        delim(Delimiter::Dot, 1)
    } else if c == '=' {
        if n1 == Some('=') {
            op(Operator::Equal, 2)
        } else if n1 == Some('>') {
            delim(Delimiter::ThickArrow, 2)
        } else {
            op(Operator::Assign, 1)
        }
    } else if c == '-' {
        if n1 == Some('>') {
            delim(Delimiter::ThinArrow, 2)
        } else if n1 == Some('=') {
            op(Operator::SubAssign, 2)
        } else {
            op(Operator::Minus, 1)
        }
    } else if c == '+' {
        if n1 == Some('=') {
            op(Operator::AddAssign, 2)
        } else {
            op(Operator::Plus, 1)
        }
    } else if c == '*' {
        if n1 == Some('=') {
            op(Operator::MulAssign, 2)
        } else {
            op(Operator::Asterisk, 1)
        }
    } else if c == '/' {
        if n1 == Some('=') {
            op(Operator::DivAssign, 2)
        } else {
            op(Operator::Slash, 1)
        }
    } else if c == '%' {
        if n1 == Some('=') {
            op(Operator::ModAssign, 2)
        } else {
            op(Operator::Percent, 1)
        }
    } else if c == '!' {
        if n1 == Some('=') {
            op(Operator::NotEqual, 2)
        } else {
            op(Operator::Exclem, 1)
        }
    } else if c == '>' {
        if n1 == Some('=') {
            op(Operator::GreaterEqual, 2)
        } else if n1 == Some('>') {
            if n2 == Some('=') {
                op(Operator::RShiftAssign, 3)
            } else {
                op(Operator::RShift, 2)
            }
        } else {
            op(Operator::Greater, 1)
        }
    } else if c == '<' {
        if n1 == Some('=') {
            op(Operator::LessEqual, 2)
        } else if n1 == Some('<') {
            if n2 == Some('=') {
                op(Operator::LShiftAssign, 3)
            } else {
                op(Operator::LShift, 2)
            }
        } else {
            op(Operator::Less, 1)
        }
    } else if c == '&' {
        if n1 == Some('=') {
            op(Operator::BitAndAssign, 2)
        } else if n1 == Some('&') {
            op(Operator::LogicalAnd, 2)
        } else {
            op(Operator::Ampersand, 1)
        }
    } else if c == '|' {
        if n1 == Some('=') {
            op(Operator::BitOrAssign, 2)
        } else if n1 == Some('|') {
            op(Operator::LogicalOr, 2)
        } else {
            op(Operator::Pipe, 1)
        }
    } else if c == '^' {
        if n1 == Some('=') {
            op(Operator::BitXorAssign, 2)
        } else {
            op(Operator::Xor, 1)
        }
    } else if c == '?' {
        op(Operator::Question, 1)
    } else {
        None
    }
}

/// Whether a `-` directly followed by a digit starts a negative number,
/// given the token before it: yes at the start, after an operator or a
/// keyword, and after an opening bracket or a separating delimiter.
pub open spec fn can_start_signed(last: Option<SpecToken>) -> bool {
    match last {
        None => true,
        Some(SpecToken::Operator(_)) => true,
        Some(SpecToken::Keyword(_)) => true,
        Some(SpecToken::Delimiter(d)) => d == Delimiter::LParen || d == Delimiter::LBrace || d
            == Delimiter::LBracket || d == Delimiter::Comma || d == Delimiter::Colon || d
            == Delimiter::DoubleColon || d == Delimiter::ThinArrow || d == Delimiter::ThickArrow
            || d == Delimiter::Semicolon,
        _ => false,
    }
}

/// The last token of a token list, if any.
pub open spec fn last_token(toks: Seq<(SpecToken, Span)>) -> Option<SpecToken> {
    if toks.len() == 0 {
        None
    } else {
        Some(toks.last().0)
    }
}

/// One step of the lexer at position `p` (`0 <= p < cs.len()`), where
/// `last` is the last token emitted so far.
pub open spec fn scan(cs: Seq<char>, p: int, last: Option<SpecToken>) -> SpecScan {
    let c = cs[p];
    let span = span_at(cs, p);
    let n1 = char_at(cs, p + 1);
    if is_blank(c) {
        SpecScan::Skip(p + 1)
    } else if c == '/' && n1 == Some('/') {
        SpecScan::Skip(skip_line_comment(cs, p + 1))
    } else if c == '/' && n1 == Some('*') {
        match skip_block_comment(cs, p + 2, 1, span) {
            Ok(e) => SpecScan::Skip(e),
            Err((err, e)) => SpecScan::Fail(err, e),
        }
    } else if c == '-' && n1 is Some && is_digit(n1->0) && can_start_signed(last) {
        scan_number(cs, p + 2, seq!['-', n1->0], n1->0, span)
    } else if punct(c, n1, char_at(cs, p + 2)) is Some {
        let (t, len) = punct(c, n1, char_at(cs, p + 2))->0;
        SpecScan::Emit(t, p + len)
    } else if c == '\'' {
        scan_char_literal(cs, p + 1, span)
    } else if c == '"' {
        scan_string_literal(cs, p + 1, span)
    } else if is_digit(c) {
        scan_number(cs, p + 1, seq![c], c, span)
    } else if is_ident_start(c) {
        let (w, e) = scan_word(cs, p + 1, seq![c]);
        SpecScan::Emit(classify_word(w), e)
    } else {
        SpecScan::Fail(SpecLexError::UnexpectedCharacter { found: c, span }, p + 1)
    }
}

/// Lexing from position `p` with the tokens `toks` emitted so far: the
/// final token list, the error if lexing stopped early, and the position
/// reached (the end of the text, or how far the failing step read). At the end of
/// the text an `Eof` token with the span of the end is appended. (Each step
/// moves forward within the text, as `lemma_scan_advances` shows, so the
/// guards on the recursive calls always hold.)
pub open spec fn lex(cs: Seq<char>, p: int, toks: Seq<(SpecToken, Span)>) -> (
    Seq<(SpecToken, Span)>,
    Option<SpecLexError>,
    int,
)
    decreases cs.len() - p,
{
    if p < 0 || p >= cs.len() {
        (toks.push((SpecToken::Eof, span_at(cs, p))), None, p)
    } else {
        match scan(cs, p, last_token(toks)) {
            SpecScan::Skip(e) => if p < e <= cs.len() {
                lex(cs, e, toks)
            } else {
                (toks, None, p)
            },
            SpecScan::Emit(t, e) => if p < e <= cs.len() {
                lex(cs, e, toks.push((t, span_at(cs, p))))
            } else {
                (toks, None, p)
            },
            SpecScan::Fail(err, e) => (toks, Some(err), e),
        }
    }
}

/// The positions at which the tokens that `lex` emits from position `p`
/// start, in order: the positions of the steps that emit a token.
pub open spec fn token_starts(cs: Seq<char>, p: int, toks: Seq<(SpecToken, Span)>) -> Seq<int>
    decreases cs.len() - p,
{
    if p < 0 || p >= cs.len() {
        Seq::empty()
    } else {
        match scan(cs, p, last_token(toks)) {
            SpecScan::Skip(e) => if p < e <= cs.len() {
                token_starts(cs, e, toks)
            } else {
                Seq::empty()
            },
            SpecScan::Emit(t, e) => if p < e <= cs.len() {
                seq![p] + token_starts(cs, e, toks.push((t, span_at(cs, p))))
            } else {
                Seq::empty()
            },
            SpecScan::Fail(_, _) => Seq::empty(),
        }
    }
}

/// The model of a list of tokens with their spans.
pub open spec fn tokens_view(s: Seq<(Token, Span)>) -> Seq<(SpecToken, Span)> {
    s.map_values(|x: (Token, Span)| (x.0@, x.1))
}

} // verus!
