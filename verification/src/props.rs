//! Laws of the scanning model: properties that hold of every scan, proved
//! once and for all against `scan_step` / `scan_from`.

use vstd::prelude::*;

use crate::scanning::alnum_run_end;
use crate::scanning::digit_run_end;
use crate::scanning::find_quote;
use crate::scanning::lemma_alnum_run_end;
use crate::scanning::lemma_comment_end;
use crate::scanning::lemma_digit_run_end;
use crate::scanning::lemma_find_quote;
use crate::scanning::lemma_newlines_none;
use crate::scanning::lemma_newlines_split;
use crate::scanning::lemma_step_bounds;
use crate::scanning::newlines;
use crate::scanning::opt_seq;
use crate::scanning::scan_from;
use crate::scanning::scan_step;
use crate::tokens::LexErrorKind;
use crate::tokens::SpecLiteral;
use crate::tokens::TokenType;
use crate::tokens::is_alpha;
use crate::tokens::is_digit;
use crate::tokens::spec_keyword_kind;

verus! {

/// No single step ever produces the end-of-input kind: it is reserved for
/// the terminator that `scan_from` appends.
proof fn lemma_step_no_eof(s: Seq<char>, i: int, line: int)
    requires
        0 <= i < s.len(),
    ensures
        (scan_step(s, i, line).token matches Some(t) ==> t.token_type != TokenType::EndOfInput),
{
}

/// Law: for every input, the token list ends in exactly one `EndOfInput`
/// token — the last token is `EndOfInput` and no earlier token is —
/// whether the input is empty, whitespace-only, or ends abruptly inside a
/// comment or a string.
pub proof fn lemma_end_of_input(s: Seq<char>, i: int, line: int)
    requires
        0 <= i <= s.len(),
    ensures
        scan_from(s, i, line).tokens.len() >= 1,
        scan_from(s, i, line).tokens.last().token_type == TokenType::EndOfInput,
        forall|k: int|
            0 <= k < scan_from(s, i, line).tokens.len() - 1 ==> scan_from(
                s,
                i,
                line,
            ).tokens[k].token_type != TokenType::EndOfInput,
    decreases s.len() - i,
{
    if i < s.len() {
        let st = scan_step(s, i, line);
        lemma_step_bounds(s, i, line);
        lemma_step_no_eof(s, i, line);
        lemma_end_of_input(s, st.next, st.line);
        let toks = scan_from(s, i, line).tokens;
        let rest = scan_from(s, st.next, st.line).tokens;
        assert(toks == opt_seq(st.token) + rest);
        assert(toks.last() == rest.last());
        assert forall|k: int|
            0 <= k < toks.len() - 1 implies toks[k].token_type != TokenType::EndOfInput by {
            if k >= opt_seq(st.token).len() {
                assert(toks[k] == rest[k - opt_seq(st.token).len()]);
            }
        }
    }
}

/// Every step that emits a token consumes exactly that token's lexeme:
/// the lexeme is the source span from the step's start to its end.
pub proof fn lemma_step_lexeme(s: Seq<char>, i: int, line: int)
    requires
        0 <= i < s.len(),
    ensures
        (scan_step(s, i, line).token matches Some(t) ==> t.lexem == s.subrange(
            i,
            scan_step(s, i, line).next,
        )),
{
}

/// A step that emits no token and no error only skips whitespace, a bare
/// newline, or a `//` comment.
pub proof fn lemma_skipped_spans(s: Seq<char>, i: int, line: int)
    requires
        0 <= i < s.len(),
    ensures
        ({
            let st = scan_step(s, i, line);
            st.token is None && st.error is None ==> (s[i] == ' ' || s[i] == '\t' || s[i] == '\r'
                || s[i] == '\n' || (s[i] == '/' && i + 1 < s.len() && s[i + 1] == '/'))
        }),
{
}

/// The source text as a scan walks over it: each step contributes its
/// token's lexeme, or — where it emitted no token — the exact span it
/// skipped (whitespace, a comment, or an erroneous span).
pub open spec fn reconstruct(s: Seq<char>, i: int, line: int) -> Seq<char>
    recommends
        0 <= i <= s.len(),
    decreases s.len() - i,
        when 0 <= i <= s.len()
    via reconstruct_decreases
{
    if i >= s.len() {
        Seq::empty()
    } else {
        let st = scan_step(s, i, line);
        (match st.token {
            Some(t) => t.lexem,
            None => s.subrange(i, st.next),
        }) + reconstruct(s, st.next, st.line)
    }
}

#[via_fn]
proof fn reconstruct_decreases(s: Seq<char>, i: int, line: int) {
    if i < s.len() {
        lemma_step_bounds(s, i, line);
    }
}

/// Law: the tokens' lexemes partition the source text. Concatenating every
/// token's lexeme in order, re-inserting exactly the spans that were
/// skipped between them, reconstructs the original source; in an
/// error-free scan those skipped spans are only whitespace and comments
/// (see `lemma_skipped_spans`).
pub proof fn lemma_lexemes_partition_source(s: Seq<char>, i: int, line: int)
    requires
        0 <= i <= s.len(),
    ensures
        reconstruct(s, i, line) == s.subrange(i, s.len() as int),
    decreases s.len() - i,
{
    if i >= s.len() {
        assert(reconstruct(s, i, line) =~= s.subrange(i, s.len() as int));
    } else {
        let st = scan_step(s, i, line);
        lemma_step_bounds(s, i, line);
        lemma_step_lexeme(s, i, line);
        lemma_lexemes_partition_source(s, st.next, st.line);
        assert(s.subrange(i, s.len() as int) =~= s.subrange(i, st.next) + s.subrange(
            st.next,
            s.len() as int,
        ));
    }
}

/// The one-character operator kind for each of the four foldable prefixes.
pub open spec fn single_operator_kind(c: char) -> TokenType {
    if c == '!' {
        TokenType::Bang
    } else if c == '=' {
        TokenType::Equal
    } else if c == '>' {
        TokenType::Greater
    } else {
        TokenType::Less
    }
}

/// The two-character operator kind for each of the four foldable prefixes.
pub open spec fn double_operator_kind(c: char) -> TokenType {
    if c == '!' {
        TokenType::BangEqual
    } else if c == '=' {
        TokenType::DoubleEqual
    } else if c == '>' {
        TokenType::GreaterEqual
    } else {
        TokenType::LessEqual
    }
}

/// Law: a two-character operator is recognized exactly when its two
/// characters are contiguous and unconsumed. `!` directly followed by `=`
/// scans as `BangEqual` and consumes both; `!` followed by anything else
/// (whitespace included) scans as `Bang` alone — and likewise for `=`,
/// `>` and `<`.
pub proof fn lemma_two_char_operators(s: Seq<char>, i: int, line: int)
    requires
        0 <= i < s.len(),
        s[i] == '!' || s[i] == '=' || s[i] == '>' || s[i] == '<',
    ensures
        ({
            let st = scan_step(s, i, line);
            &&& st.token is Some
            &&& st.error is None
            &&& st.line == line
            &&& (st.token matches Some(t) ==> if i + 1 < s.len() && s[i + 1] == '=' {
                st.next == i + 2 && t.token_type == double_operator_kind(s[i])
            } else {
                st.next == i + 1 && t.token_type == single_operator_kind(s[i])
            })
        }),
{
}

/// Law: a numeric literal's digit strings are exactly what they claim: the
/// integer part is a non-empty run of digits, the fractional part (possibly
/// empty) is a run of digits, and together — joined by `.` when the
/// fraction is present — they form the token's lexeme.
pub proof fn lemma_number_literal_digits(s: Seq<char>, i: int, line: int)
    requires
        0 <= i < s.len(),
        is_digit(s[i]),
    ensures
        ({
            let st = scan_step(s, i, line);
            &&& st.token is Some
            &&& (st.token matches Some(t) ==> t.token_type == TokenType::Number
                && (t.literal matches SpecLiteral::Float(d) && {
                &&& d.int_digits.len() >= 1
                &&& forall|k: int| 0 <= k < d.int_digits.len() ==> is_digit(#[trigger] d.int_digits[k])
                &&& forall|k: int|
                    0 <= k < d.frac_digits.len() ==> is_digit(#[trigger] d.frac_digits[k])
                &&& t.lexem == if d.frac_digits.len() == 0 {
                    d.int_digits
                } else {
                    d.int_digits + seq!['.'] + d.frac_digits
                }
            }))
        }),
{
    let st = scan_step(s, i, line);
    lemma_digit_run_end(s, i);
    let d1 = digit_run_end(s, i);
    if d1 < s.len() && s[d1] == '.' && d1 + 1 < s.len() && is_digit(s[d1 + 1]) {
        lemma_digit_run_end(s, d1 + 1);
        let d2 = digit_run_end(s, d1 + 1);
        assert(s.subrange(i, d2) =~= s.subrange(i, d1) + seq!['.'] + s.subrange(d1 + 1, d2));
    }
}

/// Law: one scan step advances the line counter by exactly the number of
/// newline characters it consumes. In particular a string literal spanning
/// several lines advances the counter once per embedded newline, and every
/// token records the line the scan had reached when it was emitted.
pub proof fn lemma_line_tracking(s: Seq<char>, i: int, line: int)
    requires
        0 <= i < s.len(),
    ensures
        scan_step(s, i, line).line == line + newlines(s, i, scan_step(s, i, line).next),
{
    let c = s[i];
    let st = scan_step(s, i, line);
    if c == '/' && i + 1 < s.len() && s[i + 1] == '/' {
        lemma_comment_end(s, i + 2);
        assert forall|j: int| i <= j < st.next implies s[j] != '\n' by {}
        lemma_newlines_none(s, i, st.next);
    } else if c == '"' {
        lemma_find_quote(s, i + 1);
        match find_quote(s, i + 1) {
            Some(j) => {
                lemma_newlines_split(s, i, i + 1, j + 1);
                assert(newlines(s, i, i) == 0);
                assert(newlines(s, i, i + 1) == 0);
                assert(newlines(s, i + 1, j + 1) == newlines(s, i + 1, j));
            },
            None => {
                lemma_newlines_split(s, i, i + 1, s.len() as int);
                assert(newlines(s, i, i) == 0);
                assert(newlines(s, i, i + 1) == 0);
            },
        }
    } else if is_digit(c) {
        lemma_digit_run_end(s, i);
        let d1 = digit_run_end(s, i);
        if d1 < s.len() && s[d1] == '.' && d1 + 1 < s.len() && is_digit(s[d1 + 1]) {
            lemma_digit_run_end(s, d1 + 1);
            assert forall|j: int| i <= j < st.next implies s[j] != '\n' by {}
            lemma_newlines_none(s, i, st.next);
        } else {
            assert forall|j: int| i <= j < st.next implies s[j] != '\n' by {}
            lemma_newlines_none(s, i, st.next);
        }
    } else if is_alpha(c) {
        lemma_alnum_run_end(s, i);
        assert forall|j: int| i <= j < st.next implies s[j] != '\n' by {}
        lemma_newlines_none(s, i, st.next);
    } else {
        // Every remaining step consumes one character, or two for a folded
        // two-character operator whose second character is `=`.
        assert(newlines(s, i, i) == 0);
        assert(newlines(s, i, i + 1) == newlines(s, i, i) + if s[i] == '\n' {
            1int
        } else {
            0int
        });
        if st.next == i + 2 {
            assert(newlines(s, i, i + 2) == newlines(s, i, i + 1) + if s[i + 1] == '\n' {
                1int
            } else {
                0int
            });
        }
    }
}

/// Law: the end-of-input token carries the final line: the starting line
/// plus exactly the number of newline characters in the scanned text.
pub proof fn lemma_final_line(s: Seq<char>, i: int, line: int)
    requires
        0 <= i <= s.len(),
    ensures
        scan_from(s, i, line).tokens.last().line == line + newlines(s, i, s.len() as int),
    decreases s.len() - i,
{
    lemma_end_of_input(s, i, line);
    if i < s.len() {
        let st = scan_step(s, i, line);
        lemma_step_bounds(s, i, line);
        lemma_line_tracking(s, i, line);
        lemma_final_line(s, st.next, st.line);
        lemma_newlines_split(s, i, st.next, s.len() as int);
        let toks = scan_from(s, i, line).tokens;
        let rest = scan_from(s, st.next, st.line).tokens;
        assert(toks == opt_seq(st.token) + rest);
        assert(toks.last() == rest.last());
    }
}

/// Law: an unterminated string (an opening quote never closed before end
/// of input) produces exactly one reported lexical error, of the
/// unterminated-string kind, and no token beyond the end-of-input marker:
/// scanning consumes the rest of the input and stops cleanly.
pub proof fn lemma_unterminated_string(s: Seq<char>, i: int, line: int)
    requires
        0 <= i < s.len(),
        s[i] == '"',
        forall|j: int| i < j < s.len() ==> s[j] != '"',
    ensures
        scan_from(s, i, line).errors.len() == 1,
        scan_from(s, i, line).errors[0].kind == LexErrorKind::UnterminatedString,
        scan_from(s, i, line).tokens.len() == 1,
        scan_from(s, i, line).tokens[0].token_type == TokenType::EndOfInput,
{
    lemma_find_quote(s, i + 1);
    if find_quote(s, i + 1) is Some {
        assert(false);
    }
    let st = scan_step(s, i, line);
    assert(st.next == s.len());
    assert(scan_from(s, i, line).errors =~= opt_seq(st.error) + scan_from(
        s,
        st.next,
        st.line,
    ).errors);
    assert(scan_from(s, i, line).tokens =~= opt_seq(st.token) + scan_from(
        s,
        st.next,
        st.line,
    ).tokens);
}

/// Law: keyword recognition is an exact, case-sensitive comparison of the
/// whole identifier run against the reserved-word table. Any run that is
/// not letter-for-letter one of the table's spellings — a capitalized
/// `If`, for instance — scans as a plain `Identifier`.
pub proof fn lemma_keyword_is_exact_match(s: Seq<char>, i: int, line: int)
    requires
        0 <= i < s.len(),
        is_alpha(s[i]),
    ensures
        ({
            let st = scan_step(s, i, line);
            let text = s.subrange(i, alnum_run_end(s, i));
            &&& st.next == alnum_run_end(s, i)
            &&& st.error is None
            &&& st.line == line
            &&& st.token is Some
            &&& (st.token matches Some(t) ==> t.lexem == text && t.token_type == (
            match spec_keyword_kind(text) {
                Some(k) => k,
                None => TokenType::Identifier,
            }))
        }),
{
}

} // verus!
