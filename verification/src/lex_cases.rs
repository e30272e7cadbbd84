//! What each kind of token lexes to, stated over the characters of the text:
//! numbers, the sign rule, comments, operators and delimiters, and quoted
//! literals. Each law says what lexing from a position gives, as the token
//! emitted there and the position where lexing goes on.

use vstd::prelude::*;

use crate::lex_spec::{
    char_at, classify_word, false_text, keyword_of, keyword_text, last_token, lex, scan_word,
    true_text, scan, scan_decimal, scan_number, scan_quoted, skip_block_comment,
    scan_radix, span_at, SpecLexError, SpecLiteral, SpecScan, SpecToken,
};
use crate::lexer::{Delimiter, Keyword, Operator, Radix, Span};

verus! {

/// An ASCII decimal digit.
pub open spec fn decimal_digit(c: char) -> bool {
    '0' <= c <= '9'
}

/// A letter that ends a decimal literal as its suffix.
pub open spec fn suffix_letter(c: char) -> bool {
    c == 'd' || c == 'D' || c == 'f' || c == 'F' || c == 'u' || c == 'U' || c == 'l' || c == 'L'
}

/// The text with its `_` characters left out.
pub open spec fn without_underscores(s: Seq<char>) -> Seq<char>
    decreases s.len(),
{
    if s.len() == 0 {
        s
    } else if s.last() == '_' {
        without_underscores(s.drop_last())
    } else {
        without_underscores(s.drop_last()).push(s.last())
    }
}

proof fn lemma_without_underscores_step(cs: Seq<char>, p: int, q: int)
    requires
        0 <= p <= q < cs.len(),
    ensures
        without_underscores(cs.subrange(p, q + 1)) == if cs[q] == '_' {
            without_underscores(cs.subrange(p, q))
        } else {
            without_underscores(cs.subrange(p, q)).push(cs[q])
        },
{
    assert(cs.subrange(p, q + 1).drop_last() =~= cs.subrange(p, q));
}

proof fn lemma_decimal_run(cs: Seq<char>, p: int, d: int, r: int, q: int)
    requires
        0 <= p < q <= r <= cs.len(),
        p < d <= r,
        forall|k: int| p < k < r ==> if k == d {
            cs[k] == '.'
        } else {
            decimal_digit(#[trigger] cs[k]) || cs[k] == '_'
        },
        r < cs.len() ==> !decimal_digit(cs[r]) && cs[r] != '_' && (cs[r] == '.' ==> d < r),
    ensures
        scan_decimal(cs, q, without_underscores(cs.subrange(p, q)), d < q) == if r < cs.len()
            && suffix_letter(cs[r]) {
            (without_underscores(cs.subrange(p, r)).push(cs[r]), r + 1)
        } else {
            (without_underscores(cs.subrange(p, r)), r)
        },
    decreases r - q,
{
    if q < r {
        lemma_without_underscores_step(cs, p, q);
        lemma_decimal_run(cs, p, d, r, q + 1);
    }
}

/// A decimal literal is the whole run of its characters: when the text from
/// `p` to `r` is a digit followed by digits and `_` separators with at most
/// one dot (at `d`, or none when `d == r`), and the character at `r` can
/// neither continue the literal (a digit, `_`, or a dot when there was
/// none) nor turn a lone `0` into a prefixed literal, lexing from `p` emits
/// one numeric literal: the run without its separators, followed by the
/// character at `r` if that is a suffix letter (`d f u l`, either case).
/// Lexing goes on after it.
pub proof fn law_decimal_literal(
    cs: Seq<char>,
    p: int,
    d: int,
    r: int,
    toks: Seq<(SpecToken, Span)>,
)
    requires
        0 <= p < r <= cs.len(),
        p < d <= r,
        decimal_digit(cs[p]),
        forall|k: int| p < k < r ==> if k == d {
            cs[k] == '.'
        } else {
            decimal_digit(#[trigger] cs[k]) || cs[k] == '_'
        },
        r < cs.len() ==> !decimal_digit(cs[r]) && cs[r] != '_' && (cs[r] == '.' ==> d < r),
        r < cs.len() && r == p + 1 && cs[p] == '0' ==> cs[r] != 'x' && cs[r] != 'b' && cs[r]
            != 'o',
    ensures
        ({
            let text = without_underscores(cs.subrange(p, r));
            if r < cs.len() && suffix_letter(cs[r]) {
                lex(cs, p, toks) == lex(
                    cs,
                    r + 1,
                    toks.push(
                        (
                            SpecToken::Literal(SpecLiteral::Numeric(text.push(cs[r]))),
                            span_at(cs, p),
                        ),
                    ),
                )
            } else {
                lex(cs, p, toks) == lex(
                    cs,
                    r,
                    toks.push((SpecToken::Literal(SpecLiteral::Numeric(text)), span_at(cs, p))),
                )
            }
        }),
{
    let c = cs[p];
    let span = span_at(cs, p);
    assert(cs.subrange(p, p).len() == 0);
    lemma_without_underscores_step(cs, p, p);
    assert(without_underscores(cs.subrange(p, p)) =~= Seq::<char>::empty());
    assert(without_underscores(cs.subrange(p, p + 1)) =~= seq![c]);
    lemma_decimal_run(cs, p, d, r, p + 1);
    let (t, e) = scan_decimal(cs, p + 1, seq![c], false);
    assert(scan_number(cs, p + 1, seq![c], c, span) == SpecScan::Emit(
        SpecToken::Literal(SpecLiteral::Numeric(t)),
        e,
    ));
    assert(scan(cs, p, last_token(toks)) == SpecScan::Emit(
        SpecToken::Literal(SpecLiteral::Numeric(t)),
        e,
    ));
    crate::lex_laws::lemma_scan_advances(cs, p, last_token(toks));
}

proof fn lemma_block_comment_body(cs: Seq<char>, p: int, r: int, q: int, span: Span)
    requires
        0 <= p,
        p + 2 <= q <= r,
        r + 1 < cs.len(),
        cs[r] == '*',
        cs[r + 1] == '/',
        forall|k: int|
            p + 2 <= k < r ==> !(#[trigger] cs[k] == '/' && cs[k + 1] == '*') && !(cs[k] == '*'
                && cs[k + 1] == '/'),
    ensures
        skip_block_comment(cs, q, 1, span) == Ok::<int, (SpecLexError, int)>(r + 2),
    decreases r - q,
{
    if q < r {
        assert(!(cs[q] == '/' && cs[q + 1] == '*') && !(cs[q] == '*' && cs[q + 1] == '/'));
        lemma_block_comment_body(cs, p, r, q + 1, span);
    } else {
        assert(skip_block_comment(cs, r + 2, 0, span) == Ok::<int, (SpecLexError, int)>(r + 2));
    }
}

/// A block comment runs to its matching `*/`, over any characters,
/// line feeds included: when `/*` at `p` is closed by `*/` at `r` with no
/// `/*` or `*/` in between, lexing from `p` emits nothing for the comment
/// and goes on just after it.
pub proof fn law_block_comment(cs: Seq<char>, p: int, r: int, toks: Seq<(SpecToken, Span)>)
    requires
        0 <= p,
        p + 2 <= r,
        r + 1 < cs.len(),
        cs[p] == '/',
        cs[p + 1] == '*',
        cs[r] == '*',
        cs[r + 1] == '/',
        forall|k: int|
            p + 2 <= k < r ==> !(#[trigger] cs[k] == '/' && cs[k + 1] == '*') && !(cs[k] == '*'
                && cs[k + 1] == '/'),
    ensures
        lex(cs, p, toks) == lex(cs, r + 2, toks),
{
    lemma_block_comment_body(cs, p, r, p + 2, span_at(cs, p));
    assert(scan(cs, p, last_token(toks)) == SpecScan::Skip(r + 2));
}

/// Whether a `-` directly followed by a digit, after the token `last`, starts
/// a negative number: at the start, after an operator or keyword, and after
/// `(`, `{`, `[`, `,`, `:`, `::`, `->`, `=>` or `;`.
pub open spec fn sign_may_start_number(last: Option<SpecToken>) -> bool {
    match last {
        None => true,
        Some(SpecToken::Operator(_)) => true,
        Some(SpecToken::Keyword(_)) => true,
        Some(SpecToken::Delimiter(Delimiter::LParen)) => true,
        Some(SpecToken::Delimiter(Delimiter::LBrace)) => true,
        Some(SpecToken::Delimiter(Delimiter::LBracket)) => true,
        Some(SpecToken::Delimiter(Delimiter::Comma)) => true,
        Some(SpecToken::Delimiter(Delimiter::Colon)) => true,
        Some(SpecToken::Delimiter(Delimiter::DoubleColon)) => true,
        Some(SpecToken::Delimiter(Delimiter::ThinArrow)) => true,
        Some(SpecToken::Delimiter(Delimiter::ThickArrow)) => true,
        Some(SpecToken::Delimiter(Delimiter::Semicolon)) => true,
        _ => false,
    }
}

/// The sign rule at one position: for a `-` at `p` directly followed by a
/// digit, if the last token so far is one after which a number may start,
/// the token emitted at `p` (if lexing emits one there) is a numeric
/// literal whose text begins with `-` and that digit, and lexing does not
/// stop without emitting one unless it reports an error; after any other
/// token, the token at `p` is `Minus` and lexing goes on at the digit.
pub proof fn law_sign_at(cs: Seq<char>, p: int, toks: Seq<(SpecToken, Span)>)
    requires
        0 <= p,
        p + 1 < cs.len(),
        cs[p] == '-',
        decimal_digit(cs[p + 1]),
    ensures
        ({
            let (res, err, _) = lex(cs, p, toks);
            let n = toks.len() as int;
            if sign_may_start_number(last_token(toks)) {
                &&& (res.len() > n || err is Some)
                &&& res.len() > n ==> res[n].1 == span_at(cs, p) && (res[n].0 matches SpecToken::Literal(
                    SpecLiteral::Numeric(t),
                ) && t.len() >= 2 && t[0] == '-' && t[1] == cs[p + 1])
            } else {
                lex(cs, p, toks) == lex(
                    cs,
                    p + 1,
                    toks.push((SpecToken::Operator(Operator::Minus), span_at(cs, p))),
                )
            }
        }),
{
    let d = cs[p + 1];
    let span = span_at(cs, p);
    let n = toks.len() as int;
    if sign_may_start_number(last_token(toks)) {
        crate::lex_laws::lemma_scan_number_keeps_text(cs, p + 2, seq!['-', d], d, span);
        crate::lex_laws::lemma_scan_advances(cs, p, last_token(toks));
        let sc = scan(cs, p, last_token(toks));
        assert(sc == scan_number(cs, p + 2, seq!['-', d], d, span));
        match sc {
            SpecScan::Emit(t, e) => {
                let toks2 = toks.push((t, span));
                crate::lex_laws::law_tokens_only_appended(cs, e, toks2);
                let res = lex(cs, e, toks2).0;
                assert(res[n] == res.subrange(0, toks2.len() as int)[n]);
            },
            _ => {},
        }
    } else {
        assert(scan(cs, p, last_token(toks)) == SpecScan::Emit(
            SpecToken::Operator(Operator::Minus),
            p + 1,
        ));
    }
}

pub open spec fn op_tok(o: Operator) -> Option<SpecToken> {
    Some(SpecToken::Operator(o))
}

pub open spec fn delim_tok(d: Delimiter) -> Option<SpecToken> {
    Some(SpecToken::Delimiter(d))
}

/// The operator or delimiter that the single character `c` spells.
pub open spec fn one_char_token(c: char) -> Option<SpecToken> {
    if c == '(' {
        delim_tok(Delimiter::LParen)
    } else if c == ')' {
        delim_tok(Delimiter::RParen)
    } else if c == '{' {
        delim_tok(Delimiter::LBrace)
    } else if c == '}' {
        delim_tok(Delimiter::RBrace)
    } else if c == '[' {
        delim_tok(Delimiter::LBracket)
    } else if c == ']' {
        delim_tok(Delimiter::RBracket)
    } else if c == ';' {
        delim_tok(Delimiter::Semicolon)
    } else if c == ':' {
        delim_tok(Delimiter::Colon)
    } else if c == ',' {
        delim_tok(Delimiter::Comma)
    } else if c == '.' {
        delim_tok(Delimiter::Dot)
    } else if c == '=' {
        op_tok(Operator::Assign)
    } else if c == '-' {
        op_tok(Operator::Minus)
    } else if c == '+' {
        op_tok(Operator::Plus)
    } else if c == '*' {
        op_tok(Operator::Asterisk)
    } else if c == '/' {
        op_tok(Operator::Slash)
    } else if c == '%' {
        op_tok(Operator::Percent)
    } else if c == '!' {
        op_tok(Operator::Exclem)
    } else if c == '>' {
        op_tok(Operator::Greater)
    } else if c == '<' {
        op_tok(Operator::Less)
    } else if c == '&' {
        op_tok(Operator::Ampersand)
    } else if c == '|' {
        op_tok(Operator::Pipe)
    } else if c == '^' {
        op_tok(Operator::Xor)
    } else if c == '?' {
        op_tok(Operator::Question)
    } else {
        None
    }
}

/// The operator or delimiter that the two characters `a` `b` spell.
pub open spec fn two_char_token(a: char, b: char) -> Option<SpecToken> {
    if a == ':' && b == ':' {
        delim_tok(Delimiter::DoubleColon)
    } else if a == '=' && b == '=' {
        op_tok(Operator::Equal)
    } else if a == '=' && b == '>' {
        delim_tok(Delimiter::ThickArrow)
    } else if a == '-' && b == '>' {
        delim_tok(Delimiter::ThinArrow)
    } else if a == '-' && b == '=' {
        op_tok(Operator::SubAssign)
    } else if a == '+' && b == '=' {
        op_tok(Operator::AddAssign)
    } else if a == '*' && b == '=' {
        op_tok(Operator::MulAssign)
    } else if a == '/' && b == '=' {
        op_tok(Operator::DivAssign)
    } else if a == '%' && b == '=' {
        op_tok(Operator::ModAssign)
    } else if a == '!' && b == '=' {
        op_tok(Operator::NotEqual)
    } else if a == '>' && b == '=' {
        op_tok(Operator::GreaterEqual)
    } else if a == '>' && b == '>' {
        op_tok(Operator::RShift)
    } else if a == '<' && b == '=' {
        op_tok(Operator::LessEqual)
    } else if a == '<' && b == '<' {
        op_tok(Operator::LShift)
    } else if a == '&' && b == '=' {
        op_tok(Operator::BitAndAssign)
    } else if a == '&' && b == '&' {
        op_tok(Operator::LogicalAnd)
    } else if a == '|' && b == '=' {
        op_tok(Operator::BitOrAssign)
    } else if a == '|' && b == '|' {
        op_tok(Operator::LogicalOr)
    } else if a == '^' && b == '=' {
        op_tok(Operator::BitXorAssign)
    } else {
        None
    }
}

/// The operator that the three characters `a` `b` `c` spell.
pub open spec fn three_char_token(a: char, b: char, c: char) -> Option<SpecToken> {
    if a == '>' && b == '>' && c == '=' {
        op_tok(Operator::RShiftAssign)
    } else if a == '<' && b == '<' && c == '=' {
        op_tok(Operator::LShiftAssign)
    } else {
        None
    }
}

/// Three-character operators (`>>=`, `<<=`) are read whole.
pub proof fn law_three_char_operator(cs: Seq<char>, p: int, toks: Seq<(SpecToken, Span)>)
    requires
        0 <= p,
        p + 2 < cs.len(),
        three_char_token(cs[p], cs[p + 1], cs[p + 2]) is Some,
    ensures
        lex(cs, p, toks) == lex(
            cs,
            p + 3,
            toks.push((three_char_token(cs[p], cs[p + 1], cs[p + 2])->0, span_at(cs, p))),
        ),
{
    assert(scan(cs, p, last_token(toks)) == SpecScan::Emit(
        three_char_token(cs[p], cs[p + 1], cs[p + 2])->0,
        p + 3,
    ));
}

/// A two-character operator or delimiter is read as a whole whatever
/// follows it, unless it begins a three-character operator.
pub proof fn law_two_char_operator(cs: Seq<char>, p: int, toks: Seq<(SpecToken, Span)>)
    requires
        0 <= p,
        p + 1 < cs.len(),
        two_char_token(cs[p], cs[p + 1]) is Some,
        p + 2 < cs.len() ==> three_char_token(cs[p], cs[p + 1], cs[p + 2]) is None,
    ensures
        lex(cs, p, toks) == lex(
            cs,
            p + 2,
            toks.push((two_char_token(cs[p], cs[p + 1])->0, span_at(cs, p))),
        ),
{
    assert(scan(cs, p, last_token(toks)) == SpecScan::Emit(
        two_char_token(cs[p], cs[p + 1])->0,
        p + 2,
    ));
}

/// A single punctuation character is read alone when the next character
/// does not join it into a longer operator, a comment, or (for `-`) a
/// number.
pub proof fn law_one_char_punctuation(cs: Seq<char>, p: int, toks: Seq<(SpecToken, Span)>)
    requires
        0 <= p < cs.len(),
        one_char_token(cs[p]) is Some,
        p + 1 < cs.len() ==> {
            &&& two_char_token(cs[p], cs[p + 1]) is None
            &&& !(cs[p] == '/' && (cs[p + 1] == '/' || cs[p + 1] == '*'))
            &&& !(cs[p] == '-' && decimal_digit(cs[p + 1]))
        },
    ensures
        lex(cs, p, toks) == lex(
            cs,
            p + 1,
            toks.push((one_char_token(cs[p])->0, span_at(cs, p))),
        ),
{
    assert(scan(cs, p, last_token(toks)) == SpecScan::Emit(one_char_token(cs[p])->0, p + 1));
}

/// `\e` is an escape sequence that stands for `x`: `\n` line feed, `\r`
/// carriage return, `\t` tab, `\\` backslash, `\'` and `\"` the quotes, `\0`
/// the null character.
pub open spec fn escape_pair(e: char, x: char) -> bool {
    ||| e == 'n' && x == '\n'
    ||| e == 'r' && x == '\r'
    ||| e == 't' && x == '\t'
    ||| e == '\\' && x == '\\'
    ||| e == '\'' && x == '\''
    ||| e == '"' && x == '"'
    ||| e == '0' && x == '\0'
}

/// `e` names an escape sequence.
pub open spec fn escape_letter(e: char) -> bool {
    e == 'n' || e == 'r' || e == 't' || e == '\\' || e == '\'' || e == '"' || e == '0'
}

/// A string literal whose contents are one escape sequence `\e` is the
/// one-character string of the character that the escape stands for.
pub proof fn law_string_escape(cs: Seq<char>, p: int, x: char, toks: Seq<(SpecToken, Span)>)
    requires
        0 <= p,
        p + 3 < cs.len(),
        cs[p] == '"',
        cs[p + 1] == '\\',
        escape_pair(cs[p + 2], x),
        cs[p + 3] == '"',
    ensures
        lex(cs, p, toks) == lex(
            cs,
            p + 4,
            toks.push((SpecToken::Literal(SpecLiteral::String(seq![x])), span_at(cs, p))),
        ),
{
    let span = span_at(cs, p);
    assert(crate::text::escape_of(cs[p + 2]) == Some(x));
    assert(Seq::<char>::empty().push(x) =~= seq![x]);
    assert(scan_quoted(cs, p + 3, seq![x], '"', span) == Ok::<_, (SpecLexError, int)>(
        (seq![x], p + 4),
    ));
    assert(scan_quoted(cs, p + 1, seq![], '"', span) == Ok::<_, (SpecLexError, int)>(
        (seq![x], p + 4),
    ));
    assert(scan(cs, p, last_token(toks)) == SpecScan::Emit(
        SpecToken::Literal(SpecLiteral::String(seq![x])),
        p + 4,
    ));
}

/// A character literal that is one escape sequence `\e` is the character
/// that the escape stands for.
pub proof fn law_char_escape(cs: Seq<char>, p: int, x: char, toks: Seq<(SpecToken, Span)>)
    requires
        0 <= p,
        p + 3 < cs.len(),
        cs[p] == '\'',
        cs[p + 1] == '\\',
        escape_pair(cs[p + 2], x),
        cs[p + 3] == '\'',
    ensures
        lex(cs, p, toks) == lex(
            cs,
            p + 4,
            toks.push((SpecToken::Literal(SpecLiteral::Char(x)), span_at(cs, p))),
        ),
{
    let span = span_at(cs, p);
    assert(crate::text::escape_of(cs[p + 2]) == Some(x));
    assert(Seq::<char>::empty().push(x) =~= seq![x]);
    assert(scan_quoted(cs, p + 3, seq![x], '\'', span) == Ok::<_, (SpecLexError, int)>(
        (seq![x], p + 4),
    ));
    assert(scan_quoted(cs, p + 1, seq![], '\'', span) == Ok::<_, (SpecLexError, int)>(
        (seq![x], p + 4),
    ));
    assert(seq![x][0] == x);
    assert(scan(cs, p, last_token(toks)) == SpecScan::Emit(
        SpecToken::Literal(SpecLiteral::Char(x)),
        p + 4,
    ));
}

/// A backslash that is followed by a character naming no escape stops
/// lexing with an `InvalidEscape` error for that character, at the span of
/// the literal, having read the two characters.
pub proof fn law_invalid_escape(cs: Seq<char>, p: int, toks: Seq<(SpecToken, Span)>)
    requires
        0 <= p,
        p + 2 < cs.len(),
        cs[p] == '"' || cs[p] == '\'',
        cs[p + 1] == '\\',
        !escape_letter(cs[p + 2]),
    ensures
        lex(cs, p, toks) == (
            toks,
            Some(SpecLexError::InvalidEscape { found: cs[p + 2], span: span_at(cs, p) }),
            p + 3,
        ),
{
    let span = span_at(cs, p);
    assert(scan_quoted(cs, p + 1, seq![], cs[p], span) == Err::<(Seq<char>, int), _>(
        (SpecLexError::InvalidEscape { found: cs[p + 2], span }, p + 3),
    ));
}

proof fn lemma_plain_contents(cs: Seq<char>, p: int, r: int, q: int, quote: char, span: Span)
    requires
        0 <= p < q <= r <= cs.len(),
        r < cs.len() ==> cs[r] == quote,
        forall|k: int| p < k < r ==> #[trigger] cs[k] != quote && cs[k] != '\\',
    ensures
        r < cs.len() ==> scan_quoted(cs, q, cs.subrange(p + 1, q), quote, span) == Ok::<
            _,
            (SpecLexError, int),
        >((cs.subrange(p + 1, r), r + 1)),
        r == cs.len() ==> scan_quoted(cs, q, cs.subrange(p + 1, q), quote, span) == Err::<
            (Seq<char>, int),
            _,
        >((crate::lex_spec::unterminated(quote, span), r)),
    decreases r - q,
{
    if q < r {
        assert(cs.subrange(p + 1, q).push(cs[q]) =~= cs.subrange(p + 1, q + 1));
        lemma_plain_contents(cs, p, r, q + 1, quote, span);
    }
}

/// A string literal without backslashes holds exactly the characters
/// between its quotes, line feeds included.
pub proof fn law_plain_string(cs: Seq<char>, p: int, r: int, toks: Seq<(SpecToken, Span)>)
    requires
        0 <= p < r < cs.len(),
        cs[p] == '"',
        cs[r] == '"',
        forall|k: int| p < k < r ==> #[trigger] cs[k] != '"' && cs[k] != '\\',
    ensures
        lex(cs, p, toks) == lex(
            cs,
            r + 1,
            toks.push(
                (SpecToken::Literal(SpecLiteral::String(cs.subrange(p + 1, r))), span_at(cs, p)),
            ),
        ),
{
    assert(cs.subrange(p + 1, p + 1) =~= Seq::<char>::empty());
    lemma_plain_contents(cs, p, r, p + 1, '"', span_at(cs, p));
    assert(scan(cs, p, last_token(toks)) == SpecScan::Emit(
        SpecToken::Literal(SpecLiteral::String(cs.subrange(p + 1, r))),
        r + 1,
    ));
}

/// The base that the letter after a leading `0` selects.
pub open spec fn prefix_radix(c: char) -> Option<Radix> {
    if c == 'x' {
        Some(Radix::Hexadecimal)
    } else if c == 'b' {
        Some(Radix::Binary)
    } else if c == 'o' {
        Some(Radix::Octal)
    } else {
        None
    }
}

/// `c` is a digit of the base.
pub open spec fn digit_of_radix(radix: Radix, c: char) -> bool {
    match radix {
        Radix::Hexadecimal => ('0' <= c <= '9') || ('a' <= c <= 'f') || ('A' <= c <= 'F'),
        Radix::Binary => c == '0' || c == '1',
        Radix::Octal => '0' <= c <= '7',
    }
}

/// A character that may directly follow a prefixed literal: ASCII whitespace
/// (space, tab, line feed, form feed, carriage return), a bracket,
/// punctuation, an operator character or a quote.
pub open spec fn may_follow_prefixed(c: char) -> bool {
    c == ' ' || c == '\t' || c == '\n' || c == '\x0C' || c == '\r' || c == '(' || c == ')' || c
        == '{' || c == '}' || c == '[' || c == ']' || c == ';' || c == ':' || c == ',' || c == '.'
        || c == '+' || c == '-' || c == '*' || c == '/' || c == '%' || c == '=' || c == '!' || c
        == '<' || c == '>' || c == '&' || c == '|' || c == '^' || c == '?' || c == '\'' || c
        == '"'
}

proof fn lemma_radix_run(cs: Seq<char>, p: int, r: int, q: int, radix: Radix, span: Span)
    requires
        0 <= p < q <= r <= cs.len(),
        forall|k: int| p + 2 <= k < r ==> digit_of_radix(radix, #[trigger] cs[k]) || cs[k] == '_',
        p + 2 <= q,
    ensures
        r == cs.len() || may_follow_prefixed(cs[r]) ==> scan_radix(
            cs,
            q,
            without_underscores(cs.subrange(p, q)),
            radix,
            span,
        ) == Ok::<_, (SpecLexError, int)>((without_underscores(cs.subrange(p, r)), r)),
        r < cs.len() && !may_follow_prefixed(cs[r]) && !digit_of_radix(radix, cs[r]) && cs[r]
            != '_' ==> scan_radix(cs, q, without_underscores(cs.subrange(p, q)), radix, span)
            == Err::<(Seq<char>, int), _>(
            (
                SpecLexError::InvalidNumericLiteral {
                    radix,
                    text: without_underscores(cs.subrange(p, r)),
                    found: cs[r],
                    span,
                },
                r,
            ),
        ),
    decreases r - q,
{
    if q < r {
        lemma_without_underscores_step(cs, p, q);
        lemma_radix_run(cs, p, r, q + 1, radix, span);
    }
}

/// A prefixed literal (`0x`, `0b`, `0o`) is its prefix and the whole run of
/// digits of its base, `_` separators left out. If the run ends at the end
/// of the text or at a character that may follow a literal, lexing from `p`
/// emits that numeric literal and goes on after the run; if it ends at any
/// other character, lexing stops with an `InvalidNumericLiteral` error
/// naming the base, the text read and that character, at the span of `p`,
/// having read up to that character.
pub proof fn law_prefixed_literal(cs: Seq<char>, p: int, r: int, toks: Seq<(SpecToken, Span)>)
    requires
        0 <= p,
        p + 2 <= r <= cs.len(),
        cs[p] == '0',
        prefix_radix(cs[p + 1]) is Some,
        forall|k: int|
            p + 2 <= k < r ==> digit_of_radix(prefix_radix(cs[p + 1])->0, #[trigger] cs[k])
                || cs[k] == '_',
        r < cs.len() ==> !digit_of_radix(prefix_radix(cs[p + 1])->0, cs[r]) && cs[r] != '_',
    ensures
        ({
            let text = without_underscores(cs.subrange(p, r));
            if r == cs.len() || may_follow_prefixed(cs[r]) {
                lex(cs, p, toks) == lex(
                    cs,
                    r,
                    toks.push((SpecToken::Literal(SpecLiteral::Numeric(text)), span_at(cs, p))),
                )
            } else {
                lex(cs, p, toks) == (
                    toks,
                    Some(
                        SpecLexError::InvalidNumericLiteral {
                            radix: prefix_radix(cs[p + 1])->0,
                            text,
                            found: cs[r],
                            span: span_at(cs, p),
                        },
                    ),
                    r,
                )
            }
        }),
{
    let span = span_at(cs, p);
    let radix = prefix_radix(cs[p + 1])->0;
    lemma_without_underscores_step(cs, p, p);
    lemma_without_underscores_step(cs, p, p + 1);
    assert(without_underscores(cs.subrange(p, p)) =~= Seq::<char>::empty());
    assert(without_underscores(cs.subrange(p, p + 2)) =~= seq!['0', cs[p + 1]]);
    assert(seq!['0'].push(cs[p + 1]) =~= seq!['0', cs[p + 1]]);
    lemma_radix_run(cs, p, r, p + 2, radix, span);
    assert(scan(cs, p, last_token(toks)) == scan_number(cs, p + 1, seq!['0'], '0', span));
}

/// A line comment runs to the end of its line: lexing from `//` at `p`
/// emits nothing and goes on after the next line feed `r`, or at the end
/// of the text when no line feed follows.
pub proof fn law_line_comment(cs: Seq<char>, p: int, r: int, toks: Seq<(SpecToken, Span)>)
    requires
        0 <= p,
        p + 2 <= r <= cs.len(),
        cs[p] == '/',
        cs[p + 1] == '/',
        forall|k: int| p + 2 <= k < r ==> #[trigger] cs[k] != '\n',
        r < cs.len() ==> cs[r] == '\n',
    ensures
        lex(cs, p, toks) == lex(cs, if r < cs.len() { r + 1 } else { r }, toks),
{
    lemma_line_comment_run(cs, p, r, p + 1);
    assert(scan(cs, p, last_token(toks)) == SpecScan::Skip(
        if r < cs.len() {
            r + 1
        } else {
            r
        },
    ));
}

proof fn lemma_line_comment_run(cs: Seq<char>, p: int, r: int, q: int)
    requires
        0 <= p,
        p + 1 <= q <= r <= cs.len(),
        cs[p + 1] == '/',
        forall|k: int| p + 2 <= k < r ==> #[trigger] cs[k] != '\n',
        r < cs.len() ==> cs[r] == '\n',
    ensures
        crate::lex_spec::skip_line_comment(cs, q) == if r < cs.len() {
            r + 1
        } else {
            r
        },
    decreases r - q,
{
    if q < r {
        lemma_line_comment_run(cs, p, r, q + 1);
    }
}

proof fn lemma_block_depth_run(cs: Seq<char>, q: int, r: int, depth: nat, span: Span)
    requires
        0 <= q <= r,
        r + 1 < cs.len(),
        depth > 0,
        forall|k: int|
            q <= k < r ==> !(#[trigger] cs[k] == '/' && cs[k + 1] == '*') && !(cs[k] == '*'
                && cs[k + 1] == '/'),
    ensures
        cs[r] == '*' && cs[r + 1] == '/' ==> skip_block_comment(cs, q, depth, span)
            == skip_block_comment(cs, r + 2, (depth - 1) as nat, span),
        cs[r] == '/' && cs[r + 1] == '*' ==> skip_block_comment(cs, q, depth, span)
            == skip_block_comment(cs, r + 2, depth + 1, span),
    decreases r - q,
{
    if q < r {
        assert(!(cs[q] == '/' && cs[q + 1] == '*') && !(cs[q] == '*' && cs[q + 1] == '/'));
        lemma_block_depth_run(cs, q + 1, r, depth, span);
    }
}

/// Block comments nest: `/*` A `/*` B `*/` C `*/` (with no `/*` or `*/`
/// inside A, B or C) is one comment, and lexing goes on after the outer
/// `*/`.
pub proof fn law_nested_block_comment(
    cs: Seq<char>,
    p: int,
    a: int,
    b: int,
    c: int,
    toks: Seq<(SpecToken, Span)>,
)
    requires
        0 <= p,
        p + 2 <= a,
        a + 2 <= b,
        b + 2 <= c,
        c + 1 < cs.len(),
        cs[p] == '/' && cs[p + 1] == '*',
        cs[a] == '/' && cs[a + 1] == '*',
        cs[b] == '*' && cs[b + 1] == '/',
        cs[c] == '*' && cs[c + 1] == '/',
        forall|k: int|
            (p + 2 <= k < a || a + 2 <= k < b || b + 2 <= k < c) ==> !(#[trigger] cs[k] == '/'
                && cs[k + 1] == '*') && !(cs[k] == '*' && cs[k + 1] == '/'),
    ensures
        lex(cs, p, toks) == lex(cs, c + 2, toks),
{
    let span = span_at(cs, p);
    lemma_block_depth_run(cs, p + 2, a, 1, span);
    lemma_block_depth_run(cs, a + 2, b, 2, span);
    lemma_block_depth_run(cs, b + 2, c, 1, span);
    assert(skip_block_comment(cs, c + 2, 0, span) == Ok::<int, (SpecLexError, int)>(c + 2));
    assert(scan(cs, p, last_token(toks)) == SpecScan::Skip(c + 2));
}

proof fn lemma_unclosed_block(cs: Seq<char>, q: int, depth: nat, span: Span)
    requires
        0 <= q <= cs.len(),
        depth > 0,
        forall|k: int| q <= k < cs.len() ==> #[trigger] cs[k] != '*',
    ensures
        skip_block_comment(cs, q, depth, span) == Err::<int, _>(
            (SpecLexError::UnterminatedBlockComment { span }, cs.len() as int),
        ),
    decreases cs.len() - q,
{
    if q < cs.len() {
        if q + 1 < cs.len() {
            lemma_unclosed_block(cs, q + 2, depth + 1, span);
        }
        lemma_unclosed_block(cs, q + 1, depth, span);
    }
}

/// A block comment with no `*` after its opening `/*` is never closed:
/// lexing stops with an `UnterminatedBlockComment` error at the span of the
/// comment, having read the whole text.
pub proof fn law_unterminated_block_comment(cs: Seq<char>, p: int, toks: Seq<(SpecToken, Span)>)
    requires
        0 <= p,
        p + 1 < cs.len(),
        cs[p] == '/',
        cs[p + 1] == '*',
        forall|k: int| p + 2 <= k < cs.len() ==> #[trigger] cs[k] != '*',
    ensures
        lex(cs, p, toks) == (
            toks,
            Some(SpecLexError::UnterminatedBlockComment { span: span_at(cs, p) }),
            cs.len() as int,
        ),
{
    lemma_unclosed_block(cs, p + 2, 1, span_at(cs, p));
}

/// A string literal that is never closed (no `"` and no backslash after its
/// opening quote) stops lexing with an `UnterminatedString` error at its
/// span, having read the whole text.
pub proof fn law_unterminated_string(cs: Seq<char>, p: int, toks: Seq<(SpecToken, Span)>)
    requires
        0 <= p < cs.len(),
        cs[p] == '"',
        forall|k: int| p < k < cs.len() ==> #[trigger] cs[k] != '"' && cs[k] != '\\',
    ensures
        lex(cs, p, toks) == (
            toks,
            Some(SpecLexError::UnterminatedString { span: span_at(cs, p) }),
            cs.len() as int,
        ),
{
    assert(cs.subrange(p + 1, p + 1) =~= Seq::<char>::empty());
    lemma_plain_contents(cs, p, cs.len() as int, p + 1, '"', span_at(cs, p));
}

/// A character literal that is never closed (no `'` and no backslash after
/// its opening quote) stops lexing with an `UnterminatedChar` error at its
/// span, having read the whole text.
pub proof fn law_unterminated_char(cs: Seq<char>, p: int, toks: Seq<(SpecToken, Span)>)
    requires
        0 <= p < cs.len(),
        cs[p] == '\'',
        forall|k: int| p < k < cs.len() ==> #[trigger] cs[k] != '\'' && cs[k] != '\\',
    ensures
        lex(cs, p, toks) == (
            toks,
            Some(SpecLexError::UnterminatedChar { span: span_at(cs, p) }),
            cs.len() as int,
        ),
{
    assert(cs.subrange(p + 1, p + 1) =~= Seq::<char>::empty());
    lemma_plain_contents(cs, p, cs.len() as int, p + 1, '\'', span_at(cs, p));
}

/// A character literal without backslashes, from `'` at `p` to `'` at `r`,
/// is the character between the quotes when there is exactly one and it is
/// ASCII (one byte in UTF-8); any other contents (none, several characters,
/// or one non-ASCII character) stop lexing with an `InvalidCharLiteral`
/// error holding the contents, having read the closing quote.
pub proof fn law_plain_char_literal(cs: Seq<char>, p: int, r: int, toks: Seq<(SpecToken, Span)>)
    requires
        0 <= p < r < cs.len(),
        cs[p] == '\'',
        cs[r] == '\'',
        forall|k: int| p < k < r ==> #[trigger] cs[k] != '\'' && cs[k] != '\\',
    ensures
        if r == p + 2 && (cs[p + 1] as u32) < 0x80 {
            lex(cs, p, toks) == lex(
                cs,
                r + 1,
                toks.push((SpecToken::Literal(SpecLiteral::Char(cs[p + 1])), span_at(cs, p))),
            )
        } else {
            lex(cs, p, toks) == (
                toks,
                Some(
                    SpecLexError::InvalidCharLiteral {
                        text: cs.subrange(p + 1, r),
                        span: span_at(cs, p),
                    },
                ),
                r + 1,
            )
        },
{
    assert(cs.subrange(p + 1, p + 1) =~= Seq::<char>::empty());
    lemma_plain_contents(cs, p, r, p + 1, '\'', span_at(cs, p));
    if r == p + 2 {
        assert(cs.subrange(p + 1, r)[0] == cs[p + 1]);
    }
    crate::lex_laws::lemma_scan_advances(cs, p, last_token(toks));
}

/// Whitespace (space, tab, carriage return, line feed) emits nothing:
/// lexing goes on at the next character.
pub proof fn law_whitespace_skipped(cs: Seq<char>, p: int, toks: Seq<(SpecToken, Span)>)
    requires
        0 <= p < cs.len(),
        cs[p] == ' ' || cs[p] == '\t' || cs[p] == '\r' || cs[p] == '\n',
    ensures
        lex(cs, p, toks) == lex(cs, p + 1, toks),
{
}

/// A character that begins no token stops lexing with an
/// `UnexpectedCharacter` error for it, at its span, having read it. These
/// are all characters but whitespace, ASCII letters, digits, `_`, quotes and
/// the punctuation characters.
pub proof fn law_unexpected_character(cs: Seq<char>, p: int, toks: Seq<(SpecToken, Span)>)
    requires
        0 <= p < cs.len(),
        !(cs[p] == ' ' || cs[p] == '\t' || cs[p] == '\r' || cs[p] == '\n'),
        !('a' <= cs[p] <= 'z' || 'A' <= cs[p] <= 'Z' || '0' <= cs[p] <= '9' || cs[p] == '_'),
        cs[p] != '\'' && cs[p] != '"',
        one_char_token(cs[p]) is None,
    ensures
        lex(cs, p, toks) == (
            toks,
            Some(SpecLexError::UnexpectedCharacter { found: cs[p], span: span_at(cs, p) }),
            p + 1,
        ),
{
}

/// How line and column move: a line feed starts the next line at column 1;
/// any other character moves one column on the same line. The text starts
/// at line 1, column 1.
pub proof fn law_line_and_column(cs: Seq<char>, p: int)
    requires
        0 <= p < cs.len(),
    ensures
        crate::lex_spec::line_at(cs, 0) == 1 && crate::lex_spec::col_at(cs, 0) == 1,
        cs[p] == '\n' ==> crate::lex_spec::line_at(cs, p + 1) == crate::lex_spec::line_at(cs, p)
            + 1 && crate::lex_spec::col_at(cs, p + 1) == 1,
        cs[p] != '\n' ==> crate::lex_spec::line_at(cs, p + 1) == crate::lex_spec::line_at(cs, p)
            && crate::lex_spec::col_at(cs, p + 1) == crate::lex_spec::col_at(cs, p) + 1,
{
}

/// The keyword spelled `w`: `as`, `break`, `const`, `continue`, `else`,
/// `enum`, `extern`, `fn`, `for`, `if`, `in`, `let`, `loop`, `match`, `mod`,
/// `static`, `struct`, `type`, `use`, `while`.
pub open spec fn spelled_keyword(w: Seq<char>) -> Option<Keyword> {
    if w == "as"@ {
        Some(Keyword::As)
    } else if w == "break"@ {
        Some(Keyword::Break)
    } else if w == "const"@ {
        Some(Keyword::Const)
    } else if w == "continue"@ {
        Some(Keyword::Continue)
    } else if w == "else"@ {
        Some(Keyword::Else)
    } else if w == "enum"@ {
        Some(Keyword::Enum)
    } else if w == "extern"@ {
        Some(Keyword::Extern)
    } else if w == "fn"@ {
        Some(Keyword::Fn)
    } else if w == "for"@ {
        Some(Keyword::For)
    } else if w == "if"@ {
        Some(Keyword::If)
    } else if w == "in"@ {
        Some(Keyword::In)
    } else if w == "let"@ {
        Some(Keyword::Let)
    } else if w == "loop"@ {
        Some(Keyword::Loop)
    } else if w == "match"@ {
        Some(Keyword::Match)
    } else if w == "mod"@ {
        Some(Keyword::Mod)
    } else if w == "static"@ {
        Some(Keyword::Static)
    } else if w == "struct"@ {
        Some(Keyword::Struct)
    } else if w == "type"@ {
        Some(Keyword::Type)
    } else if w == "use"@ {
        Some(Keyword::Use)
    } else if w == "while"@ {
        Some(Keyword::While)
    } else {
        None
    }
}

/// The token a word stands for: `true` and `false` are boolean literals, a
/// keyword's spelling is that keyword, any other word an identifier.
pub open spec fn word_meaning(w: Seq<char>) -> SpecToken {
    if w == "true"@ {
        SpecToken::Literal(SpecLiteral::Boolean(true))
    } else if w == "false"@ {
        SpecToken::Literal(SpecLiteral::Boolean(false))
    } else if spelled_keyword(w) is Some {
        SpecToken::Keyword(spelled_keyword(w)->0)
    } else {
        SpecToken::Identifier(w)
    }
}

/// The lexer's keyword table holds exactly the twenty keywords with their
/// spellings, and words are classified accordingly.
pub proof fn law_keyword_spellings(w: Seq<char>)
    ensures
        keyword_of(w) == spelled_keyword(w),
        classify_word(w) == word_meaning(w),
{
    reveal_strlit("as");
    assert("as"@ =~= keyword_text(Keyword::As));
    reveal_strlit("break");
    assert("break"@ =~= keyword_text(Keyword::Break));
    reveal_strlit("const");
    assert("const"@ =~= keyword_text(Keyword::Const));
    reveal_strlit("continue");
    assert("continue"@ =~= keyword_text(Keyword::Continue));
    reveal_strlit("else");
    assert("else"@ =~= keyword_text(Keyword::Else));
    reveal_strlit("enum");
    assert("enum"@ =~= keyword_text(Keyword::Enum));
    reveal_strlit("extern");
    assert("extern"@ =~= keyword_text(Keyword::Extern));
    reveal_strlit("fn");
    assert("fn"@ =~= keyword_text(Keyword::Fn));
    reveal_strlit("for");
    assert("for"@ =~= keyword_text(Keyword::For));
    reveal_strlit("if");
    assert("if"@ =~= keyword_text(Keyword::If));
    reveal_strlit("in");
    assert("in"@ =~= keyword_text(Keyword::In));
    reveal_strlit("let");
    assert("let"@ =~= keyword_text(Keyword::Let));
    reveal_strlit("loop");
    assert("loop"@ =~= keyword_text(Keyword::Loop));
    reveal_strlit("match");
    assert("match"@ =~= keyword_text(Keyword::Match));
    reveal_strlit("mod");
    assert("mod"@ =~= keyword_text(Keyword::Mod));
    reveal_strlit("static");
    assert("static"@ =~= keyword_text(Keyword::Static));
    reveal_strlit("struct");
    assert("struct"@ =~= keyword_text(Keyword::Struct));
    reveal_strlit("type");
    assert("type"@ =~= keyword_text(Keyword::Type));
    reveal_strlit("use");
    assert("use"@ =~= keyword_text(Keyword::Use));
    reveal_strlit("while");
    assert("while"@ =~= keyword_text(Keyword::While));
    reveal_strlit("true");
    assert("true"@ =~= true_text());
    reveal_strlit("false");
    assert("false"@ =~= false_text());
}

proof fn lemma_word_run(cs: Seq<char>, p: int, r: int, q: int)
    requires
        0 <= p < q <= r <= cs.len(),
        forall|k: int| p < k < r ==> word_char(#[trigger] cs[k]),
        r < cs.len() ==> !word_char(cs[r]),
    ensures
        scan_word(cs, q, cs.subrange(p, q)) == (cs.subrange(p, r), r),
    decreases r - q,
{
    if q < r {
        assert(cs.subrange(p, q).push(cs[q]) =~= cs.subrange(p, q + 1));
        lemma_word_run(cs, p, r, q + 1);
    }
}

/// An ASCII letter, digit or `_`.
pub open spec fn word_char(c: char) -> bool {
    ('a' <= c <= 'z') || ('A' <= c <= 'Z') || ('0' <= c <= '9') || c == '_'
}

/// A word is read whole: from a letter or `_` at `p` through the letters,
/// digits and `_` that follow, up to `r`. Lexing emits the token the word
/// stands for (`word_meaning`) and goes on at `r`.
pub proof fn law_word(cs: Seq<char>, p: int, r: int, toks: Seq<(SpecToken, Span)>)
    requires
        0 <= p < r <= cs.len(),
        ('a' <= cs[p] <= 'z') || ('A' <= cs[p] <= 'Z') || cs[p] == '_',
        forall|k: int| p < k < r ==> word_char(#[trigger] cs[k]),
        r < cs.len() ==> !word_char(cs[r]),
    ensures
        lex(cs, p, toks) == lex(
            cs,
            r,
            toks.push((word_meaning(cs.subrange(p, r)), span_at(cs, p))),
        ),
{
    assert(seq![cs[p]] =~= cs.subrange(p, p + 1));
    lemma_word_run(cs, p, r, p + 1);
    law_keyword_spellings(cs.subrange(p, r));
    assert(scan(cs, p, last_token(toks)) == SpecScan::Emit(classify_word(cs.subrange(p, r)), r));
}

/// The number that a string of decimal digits denotes.
pub open spec fn digits_value(s: Seq<char>) -> int
    decreases s.len(),
{
    if s.len() == 0 {
        0
    } else {
        digits_value(s.drop_last()) * 10 + (s.last() as int - '0' as int)
    }
}

/// The decimal form that spans are written with is made of decimal digits,
/// has no leading zero, and denotes the number.
pub proof fn law_decimal_text(n: nat)
    ensures
        ({
            let s = crate::lex_spec::decimal_text(n);
            &&& s.len() >= 1
            &&& forall|i: int| 0 <= i < s.len() ==> decimal_digit(#[trigger] s[i])
            &&& n > 0 ==> s[0] != '0'
            &&& digits_value(s) == n
        }),
    decreases n,
{
    let s = crate::lex_spec::decimal_text(n);
    let d = (n % 10) as int;
    let c = crate::lex_spec::digit_char(d);
    assert(decimal_digit(c) && c as int - '0' as int == d) by {
        if d == 0 {
        } else if d == 1 {
        } else if d == 2 {
        } else if d == 3 {
        } else if d == 4 {
        } else if d == 5 {
        } else if d == 6 {
        } else if d == 7 {
        } else if d == 8 {
        } else {
        }
    }
    if n < 10 {
        assert(s.drop_last() =~= Seq::<char>::empty());
        assert(n % 10 == n);
        assert(digits_value(Seq::<char>::empty()) == 0);
        assert(s[0] == c);
        assert(digits_value(s) == n);
    } else {
        law_decimal_text(n / 10);
        let s0 = crate::lex_spec::decimal_text(n / 10);
        assert(s.drop_last() =~= s0);
        assert(s[0] == s0[0]);
        assert(forall|i: int| 0 <= i < s0.len() ==> s[i] == s0[i]);
        assert(s.last() == c);
        assert(digits_value(s) == digits_value(s0) * 10 + d);
        assert((n / 10) * 10 + n % 10 == n);
    }
}

} // verus!
