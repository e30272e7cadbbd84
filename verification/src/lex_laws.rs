//! Properties of the lexer that hold for every source text.

use vstd::prelude::*;

use crate::lex_spec::{
    char_at, classify_word, false_text, keyword_of, keyword_text, lemma_line_col_bounds, lex,
    scan, scan_decimal, scan_number, scan_quoted, scan_radix, scan_word, skip_block_comment,
    skip_line_comment, span_at, span_before, token_starts, true_text, last_token, can_start_signed,
    SpecLiteral, SpecScan, SpecToken,
};
use crate::lexer::{Keyword, Operator, Radix, Span};
use crate::text::{is_blank, is_digit, is_ident_start};

verus! {

/// Every span of the list comes strictly before every later one.
pub open spec fn spans_increasing(s: Seq<(SpecToken, Span)>) -> bool {
    forall|i: int, j: int| 0 <= i < j < s.len() ==> span_before(#[trigger] s[i].1, #[trigger] s[j].1)
}

/// Every character of the text is whitespace.
pub open spec fn all_blank(cs: Seq<char>) -> bool {
    forall|i: int| 0 <= i < cs.len() ==> is_blank(#[trigger] cs[i])
}

proof fn lemma_scan_word_bounds(cs: Seq<char>, q: int, text: Seq<char>)
    requires
        0 <= q <= cs.len(),
    ensures
        q <= scan_word(cs, q, text).1 <= cs.len(),
    decreases cs.len() - q,
{
    if q < cs.len() {
        lemma_scan_word_bounds(cs, q + 1, text.push(cs[q]));
    }
}

proof fn lemma_scan_decimal_bounds(cs: Seq<char>, q: int, text: Seq<char>, has_dot: bool)
    requires
        0 <= q <= cs.len(),
    ensures
        q <= scan_decimal(cs, q, text, has_dot).1 <= cs.len(),
    decreases cs.len() - q,
{
    if q < cs.len() {
        let d = cs[q];
        lemma_scan_decimal_bounds(cs, q + 1, text.push(d), true);
        lemma_scan_decimal_bounds(cs, q + 1, text.push(d), has_dot);
        lemma_scan_decimal_bounds(cs, q + 1, text, has_dot);
    }
}

proof fn lemma_scan_radix_bounds(
    cs: Seq<char>,
    q: int,
    text: Seq<char>,
    radix: Radix,
    span: Span,
)
    requires
        0 <= q <= cs.len(),
    ensures
        scan_radix(cs, q, text, radix, span) matches Ok((_, e)) ==> q <= e <= cs.len(),
    decreases cs.len() - q,
{
    if q < cs.len() {
        lemma_scan_radix_bounds(cs, q + 1, text.push(cs[q]), radix, span);
        lemma_scan_radix_bounds(cs, q + 1, text, radix, span);
    }
}

proof fn lemma_skip_line_bounds(cs: Seq<char>, q: int)
    requires
        0 <= q <= cs.len(),
    ensures
        q <= skip_line_comment(cs, q) <= cs.len(),
    decreases cs.len() - q,
{
    if q < cs.len() {
        lemma_skip_line_bounds(cs, q + 1);
    }
}

proof fn lemma_skip_block_bounds(cs: Seq<char>, q: int, depth: nat, span: Span)
    requires
        0 <= q <= cs.len(),
    ensures
        skip_block_comment(cs, q, depth, span) matches Ok(e) ==> q <= e <= cs.len(),
    decreases cs.len() - q,
{
    if depth != 0 && q < cs.len() {
        if char_at(cs, q + 1) is Some {
            lemma_skip_block_bounds(cs, q + 2, depth + 1, span);
            lemma_skip_block_bounds(cs, q + 2, (depth - 1) as nat, span);
        }
        lemma_skip_block_bounds(cs, q + 1, depth, span);
    }
}

proof fn lemma_scan_quoted_bounds(cs: Seq<char>, q: int, text: Seq<char>, quote: char, span: Span)
    requires
        0 <= q <= cs.len(),
    ensures
        scan_quoted(cs, q, text, quote, span) matches Ok((_, e)) ==> q < e <= cs.len(),
    decreases cs.len() - q,
{
    if q < cs.len() {
        if q + 1 < cs.len() {
            lemma_scan_quoted_bounds(cs, q + 2, text.push(cs[q + 1]), quote, span);
            if crate::text::escape_of(cs[q + 1]) is Some {
                lemma_scan_quoted_bounds(
                    cs,
                    q + 2,
                    text.push(crate::text::escape_of(cs[q + 1])->0),
                    quote,
                    span,
                );
            }
        }
        lemma_scan_quoted_bounds(cs, q + 1, text.push(cs[q]), quote, span);
    }
}

proof fn lemma_scan_number_bounds(cs: Seq<char>, q: int, text: Seq<char>, first: char, span: Span)
    requires
        0 <= q <= cs.len(),
    ensures
        scan_number(cs, q, text, first, span) matches SpecScan::Emit(_, e) ==> q <= e <= cs.len(),
        !(scan_number(cs, q, text, first, span) is Skip),
{
    lemma_scan_decimal_bounds(cs, q, text, false);
    if q < cs.len() && crate::lexer::radix_of_prefix(cs[q]) is Some {
        lemma_scan_radix_bounds(
            cs,
            q + 1,
            text.push(cs[q]),
            crate::lexer::radix_of_prefix(cs[q])->0,
            span,
        );
    }
}

/// Each step of the lexer moves forward and stays within the text, and the
/// only token it never emits is `Eof`.
pub proof fn lemma_scan_advances(cs: Seq<char>, p: int, last: Option<SpecToken>)
    requires
        0 <= p < cs.len(),
    ensures
        scan(cs, p, last) matches SpecScan::Skip(e) ==> p < e <= cs.len(),
        scan(cs, p, last) matches SpecScan::Emit(t, e) ==> p < e <= cs.len() && !(t is Eof),
{
    let c = cs[p];
    let span = span_at(cs, p);
    let n1 = char_at(cs, p + 1);
    lemma_skip_line_bounds(cs, p + 1);
    if p + 2 <= cs.len() {
        lemma_skip_block_bounds(cs, p + 2, 1, span);
        if n1 is Some {
            lemma_scan_number_bounds(cs, p + 2, seq!['-', n1->0], n1->0, span);
        }
    }
    lemma_scan_quoted_bounds(cs, p + 1, seq![], '\'', span);
    lemma_scan_quoted_bounds(cs, p + 1, seq![], '"', span);
    lemma_scan_number_bounds(cs, p + 1, seq![c], c, span);
    lemma_scan_word_bounds(cs, p + 1, seq![c]);
}

/// Lexing only appends: the tokens present before it stay, in place, at
/// the front of the list, whether lexing succeeds or fails.
pub proof fn law_tokens_only_appended(cs: Seq<char>, p: int, toks: Seq<(SpecToken, Span)>)
    ensures
        lex(cs, p, toks).0.len() >= toks.len(),
        lex(cs, p, toks).0.subrange(0, toks.len() as int) == toks,
    decreases cs.len() - p,
{
    let res = lex(cs, p, toks).0;
    if p < 0 || p >= cs.len() {
        assert(res.subrange(0, toks.len() as int) =~= toks);
    } else {
        match scan(cs, p, crate::lex_spec::last_token(toks)) {
            SpecScan::Skip(e) => {
                if p < e <= cs.len() {
                    law_tokens_only_appended(cs, e, toks);
                } else {
                    assert(res.subrange(0, toks.len() as int) =~= toks);
                }
            },
            SpecScan::Emit(t, e) => {
                if p < e <= cs.len() {
                    let toks2 = toks.push((t, span_at(cs, p)));
                    law_tokens_only_appended(cs, e, toks2);
                    assert(res.subrange(0, toks.len() as int) =~= res.subrange(
                        0,
                        toks2.len() as int,
                    ).subrange(0, toks.len() as int));
                    assert(toks2.subrange(0, toks.len() as int) =~= toks);
                } else {
                    assert(res.subrange(0, toks.len() as int) =~= toks);
                }
            },
            SpecScan::Fail(_, _) => {
                assert(res.subrange(0, toks.len() as int) =~= toks);
            },
        }
    }
}

/// `Eof` is appended exactly when lexing succeeds, as the last token, with
/// the span of the end of the text; no other token that lexing appends is
/// `Eof`.
pub proof fn law_eof_ends_success(cs: Seq<char>, p: int, toks: Seq<(SpecToken, Span)>)
    requires
        0 <= p <= cs.len(),
    ensures
        ({
            let (res, err, _) = lex(cs, p, toks);
            &&& err is None ==> res.len() > toks.len() && res.last() == (
                SpecToken::Eof,
                span_at(cs, cs.len() as int),
            )
            &&& forall|i: int|
                toks.len() <= i < res.len() && (err is Some || i < res.len() - 1) ==> !(
                #[trigger] res[i].0 is Eof)
        }),
    decreases cs.len() - p,
{
    law_tokens_only_appended(cs, p, toks);
    if p < cs.len() {
        lemma_scan_advances(cs, p, crate::lex_spec::last_token(toks));
        match scan(cs, p, crate::lex_spec::last_token(toks)) {
            SpecScan::Skip(e) => {
                law_eof_ends_success(cs, e, toks);
            },
            SpecScan::Emit(t, e) => {
                let toks2 = toks.push((t, span_at(cs, p)));
                law_eof_ends_success(cs, e, toks2);
                law_tokens_only_appended(cs, e, toks2);
                let res = lex(cs, e, toks2).0;
                assert(res[toks.len() as int] == res.subrange(0, toks2.len() as int)[toks.len() as int]);
            },
            SpecScan::Fail(_, _) => {},
        }
    }
}

/// Where the tokens come from: lexing from `p` emits one token for each of
/// the positions `token_starts`, which strictly increase within the text;
/// token `i` is what the lexing step at its position emits, its span is
/// that position's span, and lexing passes through that position with the
/// tokens before token `i` emitted. Only `Eof`, appended on success, has no
/// such position.
pub proof fn law_token_starts(cs: Seq<char>, p: int, toks: Seq<(SpecToken, Span)>)
    requires
        0 <= p <= cs.len(),
    ensures
        ({
            let (res, err, _) = lex(cs, p, toks);
            let ps = token_starts(cs, p, toks);
            let n = toks.len() as int;
            &&& res.len() == n + ps.len() + if err is None {
                1int
            } else {
                0int
            }
            &&& forall|i: int, j: int| 0 <= i < j < ps.len() ==> #[trigger] ps[i] < #[trigger] ps[j]
            &&& forall|i: int|
                #![trigger ps[i]]
                0 <= i < ps.len() ==> {
                    &&& p <= ps[i] < cs.len()
                    &&& res[n + i].1 == span_at(cs, ps[i])
                    &&& scan(cs, ps[i], last_token(res.take(n + i))) matches SpecScan::Emit(t, _)
                        && t == res[n + i].0
                    &&& lex(cs, ps[i], res.take(n + i)) == lex(cs, p, toks)
                    &&& token_starts(cs, ps[i], res.take(n + i)) == ps.skip(i)
                }
        }),
    decreases cs.len() - p,
{
    law_tokens_only_appended(cs, p, toks);
    let (res, err, _) = lex(cs, p, toks);
    let ps = token_starts(cs, p, toks);
    let n = toks.len() as int;
    if p < cs.len() {
        lemma_scan_advances(cs, p, crate::lex_spec::last_token(toks));
        match scan(cs, p, crate::lex_spec::last_token(toks)) {
            SpecScan::Skip(e) => {
                law_token_starts(cs, e, toks);
            },
            SpecScan::Emit(t, e) => {
                let toks2 = toks.push((t, span_at(cs, p)));
                law_token_starts(cs, e, toks2);
                law_tokens_only_appended(cs, e, toks2);
                let ps2 = token_starts(cs, e, toks2);
                assert(ps == seq![p] + ps2);
                assert(res.take(n) =~= toks);
                assert(res.take(n + 1) =~= toks2);
                assert(res[n] == toks2[n]);
                assert forall|i: int| #![trigger ps[i]] 0 <= i < ps.len() implies {
                    &&& p <= ps[i] < cs.len()
                    &&& res[n + i].1 == span_at(cs, ps[i])
                    &&& scan(cs, ps[i], last_token(res.take(n + i))) matches SpecScan::Emit(t, _)
                        && t == res[n + i].0
                    &&& lex(cs, ps[i], res.take(n + i)) == lex(cs, p, toks)
                    &&& token_starts(cs, ps[i], res.take(n + i)) == ps.skip(i)
                } by {
                    if i == 0 {
                        assert(ps.skip(0) =~= ps);
                    } else {
                        assert(ps[i] == ps2[i - 1]);
                        assert(ps2.skip(i - 1) =~= ps.skip(i));
                        assert(n + i == toks2.len() + (i - 1));
                    }
                }
                assert forall|i: int, j: int| 0 <= i < j < ps.len() implies #[trigger] ps[i]
                    < #[trigger] ps[j] by {
                    assert(ps[j] == ps2[j - 1]);
                    if i > 0 {
                        assert(ps[i] == ps2[i - 1]);
                    }
                }
            },
            SpecScan::Fail(_, _) => {},
        }
    }
}

proof fn lemma_scan_decimal_keeps_text(cs: Seq<char>, q: int, text: Seq<char>, has_dot: bool)
    ensures
        ({
            let t = scan_decimal(cs, q, text, has_dot).0;
            t.len() >= text.len() && forall|k: int| 0 <= k < text.len() ==> t[k] == text[k]
        }),
    decreases cs.len() - q,
{
    if 0 <= q < cs.len() {
        let d = cs[q];
        lemma_scan_decimal_keeps_text(cs, q + 1, text.push(d), true);
        lemma_scan_decimal_keeps_text(cs, q + 1, text.push(d), has_dot);
        lemma_scan_decimal_keeps_text(cs, q + 1, text, has_dot);
    }
}

proof fn lemma_scan_radix_keeps_text(
    cs: Seq<char>,
    q: int,
    text: Seq<char>,
    radix: Radix,
    span: Span,
)
    ensures
        scan_radix(cs, q, text, radix, span) matches Ok((t, _)) ==> t.len() >= text.len() && forall|
            k: int,
        |
            0 <= k < text.len() ==> t[k] == text[k],
    decreases cs.len() - q,
{
    if 0 <= q < cs.len() {
        lemma_scan_radix_keeps_text(cs, q + 1, text.push(cs[q]), radix, span);
        lemma_scan_radix_keeps_text(cs, q + 1, text, radix, span);
    }
}

/// A number read by `scan_number` is a numeric literal that begins with the
/// text read before it.
pub proof fn lemma_scan_number_keeps_text(cs: Seq<char>, q: int, text: Seq<char>, first: char, span: Span)
    ensures
        scan_number(cs, q, text, first, span) matches SpecScan::Emit(tok, _) ==> tok matches SpecToken::Literal(
            SpecLiteral::Numeric(t),
        ) && t.len() >= text.len() && forall|k: int| 0 <= k < text.len() ==> t[k] == text[k],
{
    lemma_scan_decimal_keeps_text(cs, q, text, false);
    if char_at(cs, q) is Some && crate::lexer::radix_of_prefix(cs[q]) is Some {
        lemma_scan_radix_keeps_text(
            cs,
            q + 1,
            text.push(cs[q]),
            crate::lexer::radix_of_prefix(cs[q])->0,
            span,
        );
        assert forall|k: int| 0 <= k < text.len() implies text.push(cs[q])[k] == text[k] by {}
    }
}

/// The sign rule over a whole run of lexing: where a token starts with `-`
/// directly followed by a digit, the token before it decides. If
/// `can_start_signed` holds of it, the token is a negative numeric literal
/// (its text starts with `-` and that digit); otherwise it is the operator
/// `Minus`, and the next token starts at the digit and is a numeric literal
/// beginning with it.
pub proof fn law_sign_rule(cs: Seq<char>, p: int, toks: Seq<(SpecToken, Span)>, i: int)
    requires
        0 <= p <= cs.len(),
        lex(cs, p, toks).1 is None,
        0 <= i < token_starts(cs, p, toks).len(),
        cs[token_starts(cs, p, toks)[i]] == '-',
        token_starts(cs, p, toks)[i] + 1 < cs.len(),
        is_digit(cs[token_starts(cs, p, toks)[i] + 1]),
    ensures
        ({
            let res = lex(cs, p, toks).0;
            let ps = token_starts(cs, p, toks);
            let n = toks.len() as int;
            let q = ps[i];
            if can_start_signed(last_token(res.take(n + i))) {
                res[n + i].0 matches SpecToken::Literal(SpecLiteral::Numeric(t)) && t.len() >= 2
                    && t[0] == '-' && t[1] == cs[q + 1]
            } else {
                &&& res[n + i].0 == SpecToken::Operator(Operator::Minus)
                &&& i + 1 < ps.len()
                &&& ps[i + 1] == q + 1
                &&& res[n + i + 1].0 matches SpecToken::Literal(SpecLiteral::Numeric(t)) && t.len()
                    >= 1 && t[0] == cs[q + 1]
            }
        }),
{
    law_token_starts(cs, p, toks);
    let res = lex(cs, p, toks).0;
    let ps = token_starts(cs, p, toks);
    let n = toks.len() as int;
    let q = ps[i];
    let d = cs[q + 1];
    let pre = res.take(n + i);
    let span = span_at(cs, q);
    assert(lex(cs, q, pre) == lex(cs, p, toks));
    assert(token_starts(cs, q, pre) == ps.skip(i));
    if can_start_signed(last_token(pre)) {
        lemma_scan_number_keeps_text(cs, q + 2, seq!['-', d], d, span);
    } else {
        let pre2 = pre.push((SpecToken::Operator(Operator::Minus), span));
        assert(scan(cs, q, last_token(pre)) == SpecScan::Emit(
            SpecToken::Operator(Operator::Minus),
            q + 1,
        ));
        assert(lex(cs, q, pre) == lex(cs, q + 1, pre2));
        lemma_scan_number_keeps_text(cs, q + 2, seq![d], d, span_at(cs, q + 1));
        assert(scan(cs, q + 1, last_token(pre2)) == scan_number(
            cs,
            q + 2,
            seq![d],
            d,
            span_at(cs, q + 1),
        ));
        law_tokens_only_appended(cs, q + 1, pre2);
        lemma_scan_advances(cs, q, last_token(pre));
        lemma_scan_advances(cs, q + 1, last_token(pre2));
        assert(token_starts(cs, q, pre) == seq![q] + token_starts(cs, q + 1, pre2));
        assert(scan(cs, q + 1, last_token(pre2)) is Emit);
        let ps3 = token_starts(cs, q + 1, pre2);
        assert(ps3.len() > 0 && ps3[0] == q + 1);
        assert(ps.skip(i)[1] == q + 1);
        assert(ps[i + 1] == q + 1);
        assert(res.take(n + i + 1) =~= pre2);
    }
}

/// Every character of the text is a letter, `_` or whitespace.
pub open spec fn words_only(cs: Seq<char>) -> bool {
    forall|i: int| 0 <= i < cs.len() ==> is_blank(#[trigger] cs[i]) || is_ident_start(cs[i])
}

/// The position of the first whitespace character at or after `q`, or the
/// end of the text.
pub open spec fn word_end(cs: Seq<char>, q: int) -> int
    decreases cs.len() - q,
{
    if q < 0 || q >= cs.len() || is_blank(cs[q]) {
        q
    } else {
        word_end(cs, q + 1)
    }
}

/// A word ends at or after where it is looked for, and within the text.
pub proof fn lemma_word_end_bounds(cs: Seq<char>, q: int)
    ensures
        q <= word_end(cs, q),
        0 <= q <= cs.len() ==> word_end(cs, q) <= cs.len(),
    decreases cs.len() - q,
{
    if 0 <= q < cs.len() && !is_blank(cs[q]) {
        lemma_word_end_bounds(cs, q + 1);
    }
}

/// The words of the text from `p` on: its maximal runs of characters that
/// are not whitespace, in order.
pub open spec fn words_from(cs: Seq<char>, p: int) -> Seq<Seq<char>>
    decreases cs.len() - p,
{
    if p < 0 || p >= cs.len() {
        Seq::empty()
    } else if is_blank(cs[p]) {
        words_from(cs, p + 1)
    } else {
        proof {
            lemma_word_end_bounds(cs, p + 1);
        }
        seq![cs.subrange(p, word_end(cs, p + 1))] + words_from(cs, word_end(cs, p + 1))
    }
}

proof fn lemma_scan_word_reads_word(cs: Seq<char>, p: int, q: int)
    requires
        0 <= p < q <= cs.len(),
        words_only(cs),
    ensures
        scan_word(cs, q, cs.subrange(p, q)) == (cs.subrange(p, word_end(cs, q)), word_end(cs, q)),
    decreases cs.len() - q,
{
    if q < cs.len() && !is_blank(cs[q]) {
        assert(cs.subrange(p, q).push(cs[q]) =~= cs.subrange(p, q + 1));
        lemma_scan_word_reads_word(cs, p, q + 1);
    }
}

/// A text of letters, `_` and whitespace lexes without error into one token
/// per word, each classified as `classify_word` says (boolean literal,
/// keyword or identifier), followed by `Eof`.
pub proof fn law_words_only_text(cs: Seq<char>, p: int, toks: Seq<(SpecToken, Span)>)
    requires
        0 <= p <= cs.len(),
        words_only(cs),
    ensures
        ({
            let (res, err, end) = lex(cs, p, toks);
            let ws = words_from(cs, p);
            let n = toks.len() as int;
            &&& err is None
            &&& end == cs.len()
            &&& res.len() == n + ws.len() + 1
            &&& res.take(n) == toks
            &&& forall|i: int| 0 <= i < ws.len() ==> res[n + i].0 == classify_word(#[trigger] ws[i])
            &&& res.last().0 is Eof
        }),
    decreases cs.len() - p,
{
    law_tokens_only_appended(cs, p, toks);
    let n = toks.len() as int;
    if p < cs.len() {
        if is_blank(cs[p]) {
            law_words_only_text(cs, p + 1, toks);
        } else {
            let c = cs[p];
            assert(is_ident_start(c));
            lemma_word_end_bounds(cs, p + 1);
            assert(seq![c] =~= cs.subrange(p, p + 1));
            lemma_scan_word_reads_word(cs, p, p + 1);
            let e = word_end(cs, p + 1);
            let w = cs.subrange(p, e);
            let t = classify_word(w);
            assert(scan(cs, p, last_token(toks)) == SpecScan::Emit(t, e));
            let toks2 = toks.push((t, span_at(cs, p)));
            law_words_only_text(cs, e, toks2);
            let res = lex(cs, e, toks2).0;
            let ws = words_from(cs, p);
            let ws2 = words_from(cs, e);
            assert(ws == seq![w] + ws2);
            assert(res.take(n + 1) =~= toks2);
            assert(res[n] == toks2[n]);
            assert forall|i: int| 0 <= i < ws.len() implies res[n + i].0 == classify_word(
                #[trigger] ws[i],
            ) by {
                if i > 0 {
                    assert(ws[i] == ws2[i - 1]);
                    assert(n + i == toks2.len() + (i - 1));
                }
            }
        }
    }
}

/// At the end of the text lexing appends `Eof` alone: lexing a text a
/// second time, once the first time has reached its end, adds only one
/// more `Eof` token.
pub proof fn law_lex_at_end(cs: Seq<char>, toks: Seq<(SpecToken, Span)>)
    ensures
        lex(cs, cs.len() as int, toks) == (
            toks.push((SpecToken::Eof, span_at(cs, cs.len() as int))),
            None::<crate::lex_spec::SpecLexError>,
            cs.len() as int,
        ),
{
}

/// A text made of whitespace only yields just the `Eof` token.
pub proof fn law_blank_text_yields_eof(cs: Seq<char>, p: int, toks: Seq<(SpecToken, Span)>)
    requires
        0 <= p <= cs.len(),
        all_blank(cs),
    ensures
        lex(cs, p, toks) == (
            toks.push((SpecToken::Eof, span_at(cs, cs.len() as int))),
            None::<crate::lex_spec::SpecLexError>,
            cs.len() as int,
        ),
    decreases cs.len() - p,
{
    if p < cs.len() {
        assert(is_blank(cs[p]));
        law_blank_text_yields_eof(cs, p + 1, toks);
    }
}

/// A later position has a later span: its line is greater, or its line is
/// the same and its column greater.
pub proof fn lemma_span_increases(cs: Seq<char>, p: int, q: int)
    requires
        0 <= p < q <= cs.len(),
        cs.len() < usize::MAX,
    ensures
        span_before(span_at(cs, p), span_at(cs, q)),
    decreases q - p,
{
    lemma_line_col_bounds(cs, p);
    lemma_line_col_bounds(cs, q);
    lemma_line_col_bounds(cs, q - 1);
    if p < q - 1 {
        lemma_span_increases(cs, p, q - 1);
    }
}

proof fn lemma_lex_spans_increase(cs: Seq<char>, p: int, toks: Seq<(SpecToken, Span)>)
    requires
        0 <= p <= cs.len(),
        cs.len() < usize::MAX,
        spans_increasing(toks),
        toks.len() > 0 ==> span_before(toks.last().1, span_at(cs, p)),
    ensures
        spans_increasing(lex(cs, p, toks).0),
    decreases cs.len() - p,
{
    if p == cs.len() {
        let res = lex(cs, p, toks).0;
        assert forall|i: int, j: int| 0 <= i < j < res.len() implies span_before(
            #[trigger] res[i].1,
            #[trigger] res[j].1,
        ) by {
            if j == toks.len() && i < toks.len() - 1 {
                assert(span_before(toks[i].1, toks.last().1));
            }
        }
    } else {
        lemma_scan_advances(cs, p, crate::lex_spec::last_token(toks));
        match scan(cs, p, crate::lex_spec::last_token(toks)) {
            SpecScan::Skip(e) => {
                lemma_span_increases(cs, p, e);
                lemma_lex_spans_increase(cs, e, toks);
            },
            SpecScan::Emit(t, e) => {
                let toks2 = toks.push((t, span_at(cs, p)));
                lemma_span_increases(cs, p, e);
                assert forall|i: int, j: int| 0 <= i < j < toks2.len() implies span_before(
                    #[trigger] toks2[i].1,
                    #[trigger] toks2[j].1,
                ) by {
                    if j == toks.len() && i < toks.len() - 1 {
                        assert(span_before(toks[i].1, toks.last().1));
                    }
                }
                lemma_lex_spans_increase(cs, e, toks2);
            },
            SpecScan::Fail(_, _) => {},
        }
    }
}

/// Tokens come out in source order: lexing a whole text from its start
/// gives a list whose spans strictly increase, `Eof` last.
pub proof fn law_spans_in_source_order(cs: Seq<char>)
    requires
        cs.len() < usize::MAX,
    ensures
        spans_increasing(lex(cs, 0, Seq::empty()).0),
{
    lemma_lex_spans_increase(cs, 0, Seq::empty());
}

/// The text of every keyword is read back as that keyword.
pub proof fn law_keyword_text_roundtrip(k: Keyword)
    ensures
        keyword_of(keyword_text(k)) == Some(k),
{
}

/// A word read as a keyword is that keyword's text.
pub proof fn law_keyword_of_spells_keyword(s: Seq<char>)
    ensures
        keyword_of(s) matches Some(k) ==> keyword_text(k) == s,
{
}

/// A word becomes an identifier only when it is neither a keyword nor a
/// boolean literal.
pub proof fn law_identifiers_are_not_reserved(w: Seq<char>)
    ensures
        classify_word(w) is Identifier <==> (keyword_of(w) is None && w != true_text() && w
            != false_text()),
{
}

} // verus!
