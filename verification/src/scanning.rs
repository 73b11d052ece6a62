//! The scanning engine: a mathematical model of one scan step and of a whole
//! scan (`scan_step`, `scan_from`), and the executable `Scanner` proved to
//! follow it.

use vstd::prelude::*;

use crate::tokens::LexError;
use crate::tokens::LexErrorKind;
use crate::tokens::LiteralType;
use crate::tokens::SpecDecimal;
use crate::tokens::SpecError;
use crate::tokens::SpecLiteral;
use crate::tokens::SpecToken;
use crate::tokens::Token;
use crate::tokens::TokenType;
use crate::tokens::Decimal;
use crate::tokens::is_alnum;
use crate::tokens::is_alpha;
use crate::tokens::is_digit;
use crate::tokens::is_alnum_char;
use crate::tokens::is_alpha_char;
use crate::tokens::is_digit_char;
use crate::tokens::keyword_kind;
use crate::tokens::spec_keyword_kind;
use crate::errors::chars_to_string;

verus! {

/// The position just past the run of decimal digits starting at `i`
/// (`i` itself if `s[i]` is not a digit or `i` is out of range).
pub open spec fn digit_run_end(s: Seq<char>, i: int) -> int
    recommends
        0 <= i <= s.len(),
    decreases s.len() - i,
{
    if !(0 <= i < s.len()) {
        i
    } else if !is_digit(s[i]) {
        i
    } else {
        digit_run_end(s, i + 1)
    }
}

/// The position just past the run of letters and digits starting at `i`.
pub open spec fn alnum_run_end(s: Seq<char>, i: int) -> int
    recommends
        0 <= i <= s.len(),
    decreases s.len() - i,
{
    if !(0 <= i < s.len()) {
        i
    } else if !is_alnum(s[i]) {
        i
    } else {
        alnum_run_end(s, i + 1)
    }
}

/// The position of the first newline at or after `i`, or the end of input:
/// where a `//` comment stops (the newline itself is not part of it).
pub open spec fn comment_end(s: Seq<char>, i: int) -> int
    recommends
        0 <= i <= s.len(),
    decreases s.len() - i,
{
    if !(0 <= i < s.len()) {
        s.len() as int
    } else if s[i] == '\n' {
        i
    } else {
        comment_end(s, i + 1)
    }
}

/// The position of the first `"` at or after `i`, if any: where a string
/// literal closes.
pub open spec fn find_quote(s: Seq<char>, i: int) -> Option<int>
    recommends
        0 <= i <= s.len(),
    decreases s.len() - i,
{
    if !(0 <= i < s.len()) {
        None
    } else if s[i] == '"' {
        Some(i)
    } else {
        find_quote(s, i + 1)
    }
}

/// The number of newline characters in `s[from..to)`.
pub open spec fn newlines(s: Seq<char>, from: int, to: int) -> int
    recommends
        0 <= from <= to <= s.len(),
    decreases to - from,
{
    if from >= to {
        0
    } else {
        newlines(s, from, to - 1) + if s[to - 1] == '\n' {
            1int
        } else {
            0int
        }
    }
}

pub proof fn lemma_digit_run_end(s: Seq<char>, i: int)
    requires
        0 <= i <= s.len(),
    ensures
        i <= digit_run_end(s, i) <= s.len(),
        forall|j: int| i <= j < digit_run_end(s, i) ==> is_digit(s[j]),
        digit_run_end(s, i) < s.len() ==> !is_digit(s[digit_run_end(s, i)]),
    decreases s.len() - i,
{
    if i < s.len() && is_digit(s[i]) {
        lemma_digit_run_end(s, i + 1);
    }
}

pub proof fn lemma_alnum_run_end(s: Seq<char>, i: int)
    requires
        0 <= i <= s.len(),
    ensures
        i <= alnum_run_end(s, i) <= s.len(),
        forall|j: int| i <= j < alnum_run_end(s, i) ==> is_alnum(s[j]),
        alnum_run_end(s, i) < s.len() ==> !is_alnum(s[alnum_run_end(s, i)]),
    decreases s.len() - i,
{
    if i < s.len() && is_alnum(s[i]) {
        lemma_alnum_run_end(s, i + 1);
    }
}

pub proof fn lemma_comment_end(s: Seq<char>, i: int)
    requires
        0 <= i <= s.len(),
    ensures
        i <= comment_end(s, i) <= s.len(),
        forall|j: int| i <= j < comment_end(s, i) ==> s[j] != '\n',
        comment_end(s, i) < s.len() ==> s[comment_end(s, i)] == '\n',
    decreases s.len() - i,
{
    if i < s.len() && s[i] != '\n' {
        lemma_comment_end(s, i + 1);
    }
}

pub proof fn lemma_find_quote(s: Seq<char>, i: int)
    requires
        0 <= i <= s.len(),
    ensures
        match find_quote(s, i) {
            Some(k) => i <= k < s.len() && s[k] == '"' && forall|j: int|
                i <= j < k ==> s[j] != '"',
            None => forall|j: int| i <= j < s.len() ==> s[j] != '"',
        },
    decreases s.len() - i,
{
    if i < s.len() && s[i] != '"' {
        lemma_find_quote(s, i + 1);
    }
}

pub proof fn lemma_newlines_bounds(s: Seq<char>, from: int, to: int)
    requires
        from <= to,
    ensures
        0 <= newlines(s, from, to) <= to - from,
    decreases to - from,
{
    if from < to {
        lemma_newlines_bounds(s, from, to - 1);
    }
}

/// In a span with no newline characters, the newline count is zero.
pub proof fn lemma_newlines_none(s: Seq<char>, from: int, to: int)
    requires
        from <= to,
        forall|j: int| from <= j < to ==> s[j] != '\n',
    ensures
        newlines(s, from, to) == 0,
    decreases to - from,
{
    if from < to {
        lemma_newlines_none(s, from, to - 1);
    }
}

/// Newline counting is additive over adjacent spans.
pub proof fn lemma_newlines_split(s: Seq<char>, from: int, mid: int, to: int)
    requires
        from <= mid <= to,
    ensures
        newlines(s, from, to) == newlines(s, from, mid) + newlines(s, mid, to),
    decreases to - mid,
{
    if mid < to {
        lemma_newlines_split(s, from, mid, to - 1);
    }
}

/// The outcome of scanning one token starting at some position: the next
/// cursor position, the line counter after the step, and at most one token
/// and at most one error produced by it.
#[verifier::ext_equal]
pub ghost struct ScanStep {
    pub next: int,
    pub line: int,
    pub token: Option<SpecToken>,
    pub error: Option<SpecError>,
}

/// A token with no literal value, covering `s[start..end)`.
pub open spec fn plain_token(
    kind: TokenType,
    s: Seq<char>,
    start: int,
    end: int,
    line: int,
) -> SpecToken {
    SpecToken {
        token_type: kind,
        lexem: s.subrange(start, end),
        literal: SpecLiteral::Null,
        line,
    }
}

/// A step that consumes `n` characters and emits one plain token for them.
pub open spec fn simple_step(kind: TokenType, s: Seq<char>, i: int, n: int, line: int) -> ScanStep {
    ScanStep {
        next: i + n,
        line,
        token: Some(plain_token(kind, s, i, i + n, line)),
        error: None,
    }
}

/// A step that consumes characters without emitting anything.
pub open spec fn skip_step(next: int, line: int) -> ScanStep {
    ScanStep { next, line, token: None, error: None }
}

/// An operator that is `double` when immediately followed by `=`, and
/// `single` otherwise. The two characters must be contiguous: any other
/// character after the first, including whitespace, yields `single`.
pub open spec fn two_char_step(
    s: Seq<char>,
    i: int,
    line: int,
    single: TokenType,
    double: TokenType,
) -> ScanStep {
    if i + 1 < s.len() && s[i + 1] == '=' {
        simple_step(double, s, i, 2, line)
    } else {
        simple_step(single, s, i, 1, line)
    }
}

/// A string literal opened by the `"` at `i`. If a closing quote exists, the
/// token's lexeme is the quoted text including both quotes, its literal
/// value is the text between the quotes (no escape processing: backslashes
/// are ordinary characters), and the line counter has advanced past every
/// newline embedded in the literal. If input ends first, the whole rest of
/// the input is consumed, no token is emitted, and one unterminated-string
/// error is reported at the line where scanning stopped.
pub open spec fn string_step(s: Seq<char>, i: int, line: int) -> ScanStep {
    match find_quote(s, i + 1) {
        Some(j) => {
            let l2 = line + newlines(s, i + 1, j);
            ScanStep {
                next: j + 1,
                line: l2,
                token: Some(
                    SpecToken {
                        token_type: TokenType::String,
                        lexem: s.subrange(i, j + 1),
                        literal: SpecLiteral::Str(s.subrange(i + 1, j)),
                        line: l2,
                    },
                ),
                error: None,
            }
        },
        None => {
            let l2 = line + newlines(s, i + 1, s.len() as int);
            ScanStep {
                next: s.len() as int,
                line: l2,
                token: None,
                error: Some(SpecError { line: l2, kind: LexErrorKind::UnterminatedString }),
            }
        },
    }
}

/// A numeric literal started by the digit at `i`: one digit run, and a
/// fractional part only when a `.` is directly followed by another digit.
/// A trailing `.` with no digit after it is left for the next step (it will
/// scan as a `Dot` token).
pub open spec fn number_step(s: Seq<char>, i: int, line: int) -> ScanStep {
    let d1 = digit_run_end(s, i);
    if d1 < s.len() && s[d1] == '.' && d1 + 1 < s.len() && is_digit(s[d1 + 1]) {
        let d2 = digit_run_end(s, d1 + 1);
        ScanStep {
            next: d2,
            line,
            token: Some(
                SpecToken {
                    token_type: TokenType::Number,
                    lexem: s.subrange(i, d2),
                    literal: SpecLiteral::Float(
                        SpecDecimal {
                            int_digits: s.subrange(i, d1),
                            frac_digits: s.subrange(d1 + 1, d2),
                        },
                    ),
                    line,
                },
            ),
            error: None,
        }
    } else {
        ScanStep {
            next: d1,
            line,
            token: Some(
                SpecToken {
                    token_type: TokenType::Number,
                    lexem: s.subrange(i, d1),
                    literal: SpecLiteral::Float(
                        SpecDecimal {
                            int_digits: s.subrange(i, d1),
                            frac_digits: Seq::empty(),
                        },
                    ),
                    line,
                },
            ),
            error: None,
        }
    }
}

/// An identifier or keyword started by the letter at `i`: the maximal run
/// of letters and digits, looked up in the reserved-word table by exact,
/// case-sensitive match.
pub open spec fn identifier_step(s: Seq<char>, i: int, line: int) -> ScanStep {
    let e = alnum_run_end(s, i);
    let kind = match spec_keyword_kind(s.subrange(i, e)) {
        Some(k) => k,
        None => TokenType::Identifier,
    };
    ScanStep { next: e, line, token: Some(plain_token(kind, s, i, e, line)), error: None }
}

/// One step of the scanner: dispatch on the character at `i` (with `i` in
/// range), consume at least that character, and produce at most one token
/// and at most one error.
pub open spec fn scan_step(s: Seq<char>, i: int, line: int) -> ScanStep
    recommends
        0 <= i < s.len(),
{
    let c = s[i];
    if c == '(' {
        simple_step(TokenType::LeftParen, s, i, 1, line)
    } else if c == ')' {
        simple_step(TokenType::RightParen, s, i, 1, line)
    } else if c == '{' {
        simple_step(TokenType::LeftBrace, s, i, 1, line)
    } else if c == '}' {
        simple_step(TokenType::RightBrace, s, i, 1, line)
    } else if c == ',' {
        simple_step(TokenType::Comma, s, i, 1, line)
    } else if c == '.' {
        simple_step(TokenType::Dot, s, i, 1, line)
    } else if c == '-' {
        simple_step(TokenType::Minus, s, i, 1, line)
    } else if c == '+' {
        simple_step(TokenType::Plus, s, i, 1, line)
    } else if c == ';' {
        simple_step(TokenType::SemiColon, s, i, 1, line)
    } else if c == '*' {
        simple_step(TokenType::Star, s, i, 1, line)
    } else if c == '!' {
        two_char_step(s, i, line, TokenType::Bang, TokenType::BangEqual)
    } else if c == '=' {
        two_char_step(s, i, line, TokenType::Equal, TokenType::DoubleEqual)
    } else if c == '>' {
        two_char_step(s, i, line, TokenType::Greater, TokenType::GreaterEqual)
    } else if c == '<' {
        two_char_step(s, i, line, TokenType::Less, TokenType::LessEqual)
    } else if c == '/' {
        if i + 1 < s.len() && s[i + 1] == '/' {
            skip_step(comment_end(s, i + 2), line)
        } else {
            simple_step(TokenType::ForwardSlash, s, i, 1, line)
        }
    } else if c == '"' {
        string_step(s, i, line)
    } else if c == ' ' || c == '\t' || c == '\r' {
        skip_step(i + 1, line)
    } else if c == '\n' {
        skip_step(i + 1, line + 1)
    } else if is_digit(c) {
        number_step(s, i, line)
    } else if is_alpha(c) {
        identifier_step(s, i, line)
    } else {
        ScanStep {
            next: i + 1,
            line,
            token: None,
            error: Some(SpecError { line, kind: LexErrorKind::UnexpectedCharacter }),
        }
    }
}

/// Every step makes progress: it consumes at least one character, never
/// reads past the end, and advances the line counter by at most one line
/// per character consumed (and never backwards).
pub proof fn lemma_step_bounds(s: Seq<char>, i: int, line: int)
    requires
        0 <= i < s.len(),
    ensures
        i < scan_step(s, i, line).next <= s.len(),
        line <= scan_step(s, i, line).line <= line + (scan_step(s, i, line).next - i),
{
    let c = s[i];
    if c == '/' && i + 1 < s.len() && s[i + 1] == '/' {
        lemma_comment_end(s, i + 2);
    } else if c == '"' {
        lemma_find_quote(s, i + 1);
        match find_quote(s, i + 1) {
            Some(j) => {
                lemma_newlines_bounds(s, i + 1, j);
            },
            None => {
                lemma_newlines_bounds(s, i + 1, s.len() as int);
            },
        }
    } else if is_digit(c) {
        lemma_digit_run_end(s, i);
        assert(digit_run_end(s, i) == digit_run_end(s, i + 1));
        lemma_digit_run_end(s, i + 1);
        let d1 = digit_run_end(s, i);
        if d1 < s.len() && s[d1] == '.' && d1 + 1 < s.len() && is_digit(s[d1 + 1]) {
            lemma_digit_run_end(s, d1 + 1);
            assert(digit_run_end(s, d1 + 1) == digit_run_end(s, d1 + 2));
            lemma_digit_run_end(s, d1 + 2);
        }
    } else if is_alpha(c) {
        lemma_alnum_run_end(s, i);
        assert(alnum_run_end(s, i) == alnum_run_end(s, i + 1));
        lemma_alnum_run_end(s, i + 1);
    }
}

/// The result of a whole scan: the token list (always ending in the
/// end-of-input marker) and the lexical errors reported along the way, in
/// source order.
#[verifier::ext_equal]
pub ghost struct ScanResult {
    pub tokens: Seq<SpecToken>,
    pub errors: Seq<SpecError>,
}

/// A singleton sequence for a produced token or error, or the empty
/// sequence where none was produced.
pub open spec fn opt_seq<T>(o: Option<T>) -> Seq<T> {
    match o {
        Some(t) => seq![t],
        None => Seq::empty(),
    }
}

/// The whole scan from position `i` on line `line`: repeat `scan_step`
/// until the input is exhausted, then append the single end-of-input token
/// carrying the final line number.
pub open spec fn scan_from(s: Seq<char>, i: int, line: int) -> ScanResult
    recommends
        0 <= i <= s.len(),
    decreases s.len() - i,
        when 0 <= i <= s.len()
    via scan_from_decreases
{
    if i >= s.len() {
        ScanResult {
            tokens: seq![
                SpecToken {
                    token_type: TokenType::EndOfInput,
                    lexem: Seq::empty(),
                    literal: SpecLiteral::Null,
                    line,
                },
            ],
            errors: Seq::empty(),
        }
    } else {
        let st = scan_step(s, i, line);
        let rest = scan_from(s, st.next, st.line);
        ScanResult {
            tokens: opt_seq(st.token) + rest.tokens,
            errors: opt_seq(st.error) + rest.errors,
        }
    }
}

#[via_fn]
proof fn scan_from_decreases(s: Seq<char>, i: int, line: int) {
    if i < s.len() {
        lemma_step_bounds(s, i, line);
    }
}

/// Copies `v[from..to)` into a fresh vector.
fn copy_range(v: &Vec<char>, from: usize, to: usize) -> (r: Vec<char>)
    requires
        from <= to <= v@.len(),
    ensures
        r@ == v@.subrange(from as int, to as int),
{
    let mut r: Vec<char> = Vec::new();
    let mut i: usize = from;
    while i < to
        invariant
            from <= i <= to <= v@.len(),
            r@ == v@.subrange(from as int, i as int),
        decreases to - i,
    {
        r.push(v[i]);
        i = i + 1;
        assert(r@ =~= v@.subrange(from as int, i as int));
    }
    r
}

/// Decodes a string into its sequence of characters, for O(1) indexed
/// lookahead during scanning.
fn string_to_chars(s: &str) -> (r: Vec<char>)
    ensures
        r@ == s@,
{
    let n = s.unicode_len();
    let mut r: Vec<char> = Vec::new();
    let mut i: usize = 0;
    while i < n
        invariant
            n == s@.len(),
            0 <= i <= n,
            r@ == s@.subrange(0, i as int),
        decreases n - i,
    {
        r.push(s.get_char(i));
        i = i + 1;
        assert(r@ =~= s@.subrange(0, i as int));
    }
    assert(r@ =~= s@);
    r
}

/// The scanner: owns the source text (both as a string and as a decoded
/// character sequence), a cursor pair (`start` of the current lexeme,
/// `current` scan position), a running 1-based line counter, and the
/// accumulating token and error lists.
pub struct Scanner {
    pub source: String,
    pub source_chars: Vec<char>,
    pub token_list: Vec<Token>,
    pub errors: Vec<LexError>,
    pub start: usize,
    pub current: usize,
    pub line: u32,
}

impl Scanner {
    /// The source text being scanned, as a character sequence.
    pub open spec fn src(&self) -> Seq<char> {
        self.source_chars@
    }

    /// The tokens emitted so far, as their models.
    pub open spec fn toks(&self) -> Seq<SpecToken> {
        self.token_list.deep_view()
    }

    /// The errors reported so far, as their models.
    pub open spec fn errs(&self) -> Seq<SpecError> {
        self.errors.deep_view()
    }

    /// Well-formedness: the character buffer is the decoded source text,
    /// the cursors are ordered and in bounds, and the line counter is
    /// 1-based with enough headroom that one increment per remaining
    /// character cannot overflow it.
    pub open spec fn wf(&self) -> bool {
        &&& self.source@ == self.source_chars@
        &&& self.start <= self.current <= self.source_chars@.len()
        &&& 1 <= self.line
        &&& self.line as int + self.source_chars@.len() - self.current as int <= u32::MAX as int
    }

    /// A scanner over `source`, positioned at its beginning.
    ///
    /// The length bound keeps the `u32` line counter from overflowing: the
    /// line number can grow at most once per source character.
    pub fn new(source: String) -> (r: Scanner)
        requires
            source@.len() + 1 <= u32::MAX as int,
        ensures
            r.wf(),
            r.source == source,
            r.src() == source@,
            r.toks() == Seq::<SpecToken>::empty(),
            r.errs() == Seq::<SpecError>::empty(),
            r.start == 0,
            r.current == 0,
            r.line == 1,
    {
        let source_chars = string_to_chars(source.as_str());
        let r = Scanner {
            source,
            source_chars,
            token_list: Vec::new(),
            errors: Vec::new(),
            start: 0,
            current: 0,
            line: 1,
        };
        assert(r.toks() =~= Seq::<SpecToken>::empty());
        assert(r.errs() =~= Seq::<SpecError>::empty());
        r
    }

    /// True when the cursor has consumed the whole source.
    fn at_end(&self) -> (r: bool)
        ensures
            r == (self.current >= self.src().len()),
    {
        self.current >= self.source_chars.len()
    }

    /// Returns the character under the cursor and consumes it.
    fn advance(&mut self) -> (c: char)
        requires
            old(self).current < old(self).src().len(),
        ensures
            final(self).current == old(self).current + 1,
            c == old(self).src()[old(self).current as int],
            *final(self) == (Scanner { current: final(self).current, ..*old(self) }),
    {
        let n: usize = self.source_chars.len();
        let c = self.source_chars[self.current];
        assert(self.current < n);
        self.current = self.current + 1;
        c
    }

    /// The character under the cursor, without consuming it; the sentinel
    /// `'\0'` at end of input.
    fn peek(&self) -> (c: char)
        requires
            self.current <= self.src().len(),
        ensures
            c == if self.current < self.src().len() {
                self.src()[self.current as int]
            } else {
                '\0'
            },
    {
        if self.current >= self.source_chars.len() {
            '\0'
        } else {
            self.source_chars[self.current]
        }
    }

    /// One character of lookahead past the cursor; `'\0'` if out of range.
    fn peek_next(&self) -> (c: char)
        requires
            self.current <= self.src().len(),
        ensures
            c == if self.current + 1 < self.src().len() {
                self.src()[self.current as int + 1]
            } else {
                '\0'
            },
    {
        if self.source_chars.len() - self.current < 2 {
            '\0'
        } else {
            self.source_chars[self.current + 1]
        }
    }

    /// If the next unconsumed character equals `expected`, consumes it and
    /// returns true; otherwise leaves the cursor unchanged and returns
    /// false. Folds `!`, `=`, `<`, `>` into their two-character operators.
    fn expect_char(&mut self, expected: char) -> (r: bool)
        requires
            old(self).current <= old(self).src().len(),
        ensures
            r == (old(self).current < old(self).src().len() && old(self).src()[old(
                self,
            ).current as int] == expected),
            final(self).current == old(self).current + if r {
                1int
            } else {
                0int
            },
            *final(self) == (Scanner { current: final(self).current, ..*old(self) }),
    {
        if self.at_end() {
            return false;
        }
        let n: usize = self.source_chars.len();
        if self.source_chars[self.current] != expected {
            return false;
        }
        assert(self.current < n);
        self.current = self.current + 1;
        true
    }

    /// Emits a token with no literal value: its lexeme is the source span
    /// `[start, current)`, its line the current line.
    fn add_ntoken(&mut self, t_type: TokenType)
        requires
            old(self).start <= old(self).current <= old(self).src().len(),
        ensures
            final(self).toks() == old(self).toks().push(
                plain_token(
                    t_type,
                    old(self).src(),
                    old(self).start as int,
                    old(self).current as int,
                    old(self).line as int,
                ),
            ),
            *final(self) == (Scanner { token_list: final(self).token_list, ..*old(self) }),
    {
        let text_chars = copy_range(&self.source_chars, self.start, self.current);
        let text = chars_to_string(text_chars.as_slice());
        self.token_list.push(
            Token { token_type: t_type, lexem: text, literal: LiteralType::Null, line: self.line },
        );
        assert(final(self).toks() =~= old(self).toks().push(
            plain_token(
                t_type,
                old(self).src(),
                old(self).start as int,
                old(self).current as int,
                old(self).line as int,
            ),
        ));
    }

    /// Emits a token carrying the literal value `t_value`; its lexeme is
    /// the source span `[start, current)`, its line the current line.
    fn add_token(&mut self, t_type: TokenType, t_value: LiteralType)
        requires
            old(self).start <= old(self).current <= old(self).src().len(),
        ensures
            final(self).toks() == old(self).toks().push(
                SpecToken {
                    token_type: t_type,
                    lexem: old(self).src().subrange(
                        old(self).start as int,
                        old(self).current as int,
                    ),
                    literal: t_value@,
                    line: old(self).line as int,
                },
            ),
            *final(self) == (Scanner { token_list: final(self).token_list, ..*old(self) }),
    {
        let text_chars = copy_range(&self.source_chars, self.start, self.current);
        let text = chars_to_string(text_chars.as_slice());
        self.token_list.push(
            Token { token_type: t_type, lexem: text, literal: t_value, line: self.line },
        );
        assert(final(self).toks() =~= old(self).toks().push(
            SpecToken {
                token_type: t_type,
                lexem: old(self).src().subrange(old(self).start as int, old(self).current as int),
                literal: t_value@,
                line: old(self).line as int,
            },
        ));
    }

    /// Consumes a string literal: the opening `"` has just been consumed.
    /// Embedded newlines are legal and advance the line counter. On an
    /// unterminated string, reports the error and emits no token.
    fn string(&mut self)
        requires
            old(self).wf(),
            old(self).start + 1 == old(self).current,
            old(self).src()[old(self).start as int] == '"',
        ensures
            final(self).wf(),
            ({
                let st = string_step(old(self).src(), old(self).start as int, old(self).line as int);
                &&& final(self).current as int == st.next
                &&& final(self).line as int == st.line
                &&& final(self).toks() == old(self).toks() + opt_seq(st.token)
                &&& final(self).errs() == old(self).errs() + opt_seq(st.error)
            }),
            final(self).source == old(self).source,
            final(self).source_chars == old(self).source_chars,
            final(self).start == old(self).start,
    {
        let ghost s = self.src();
        let ghost i0: int = self.start as int;
        let ghost l0: int = self.line as int;
        proof {
            lemma_find_quote(s, i0 + 1);
        }
        loop
            invariant
                self.wf(),
                self.source_chars@ == s,
                self.source == old(self).source,
                self.source_chars == old(self).source_chars,
                self.start == old(self).start,
                self.token_list == old(self).token_list,
                self.errors == old(self).errors,
                i0 + 1 <= self.current as int <= s.len(),
                i0 == self.start as int,
                self.line as int == l0 + newlines(s, i0 + 1, self.current as int),
                forall|j: int| i0 + 1 <= j < self.current as int ==> s[j] != '"',
            ensures
                self.current as int == s.len() || s[self.current as int] == '"',
            decreases s.len() - self.current,
        {
            if self.at_end() {
                break ;
            }
            let c = self.peek();
            if c == '"' {
                break ;
            }
            if c == '\n' {
                self.line = self.line + 1;
            }
            let _consumed = self.advance();
            assert(self.line as int == l0 + newlines(s, i0 + 1, self.current as int));
        }
        if self.at_end() {
            // Input ended inside the literal: one diagnostic, no token.
            assert(find_quote(s, i0 + 1) is None);
            self.errors.push(LexError { line: self.line, kind: LexErrorKind::UnterminatedString });
            proof {
                let st = string_step(s, i0, l0);
                assert(self.toks() =~= old(self).toks() + opt_seq(st.token));
                assert(self.errs() =~= old(self).errs() + opt_seq(st.error));
            }
            return ;
        }
        assert(find_quote(s, i0 + 1) == Some(self.current as int));
        let ghost j: int = self.current as int;
        // The closing quote
        let _closing = self.advance();
        // The literal value is the text between the quotes; the lexeme is
        // the whole quoted text including both quotes.
        let content = copy_range(&self.source_chars, self.start + 1, self.current - 1);
        let lit = chars_to_string(content.as_slice());
        self.add_token(TokenType::String, LiteralType::String(lit));
        proof {
            let st = string_step(s, i0, l0);
            assert(self.toks() =~= old(self).toks() + opt_seq(st.token));
            assert(self.errs() =~= old(self).errs() + opt_seq(st.error));
        }
    }

    /// Consumes a numeric literal: the leading digit has just been
    /// consumed. A fractional part is taken only when a `.` is directly
    /// followed by another digit; a bare trailing `.` is left unconsumed.
    fn number(&mut self)
        requires
            old(self).wf(),
            old(self).start + 1 == old(self).current,
            is_digit(old(self).src()[old(self).start as int]),
        ensures
            final(self).wf(),
            ({
                let st = number_step(old(self).src(), old(self).start as int, old(self).line as int);
                &&& final(self).current as int == st.next
                &&& final(self).line as int == st.line
                &&& final(self).toks() == old(self).toks() + opt_seq(st.token)
                &&& final(self).errs() == old(self).errs() + opt_seq(st.error)
            }),
            final(self).source == old(self).source,
            final(self).source_chars == old(self).source_chars,
            final(self).start == old(self).start,
    {
        let ghost s = self.src();
        let ghost i0: int = self.start as int;
        proof {
            lemma_digit_run_end(s, i0);
        }
        loop
            invariant
                self.wf(),
                self.source_chars@ == s,
                self.source == old(self).source,
                self.source_chars == old(self).source_chars,
                self.start == old(self).start,
                self.token_list == old(self).token_list,
                self.errors == old(self).errors,
                self.line == old(self).line,
                i0 + 1 <= self.current as int <= s.len(),
                i0 == self.start as int,
                digit_run_end(s, i0) == digit_run_end(s, self.current as int),
            ensures
                self.current as int == s.len() || !is_digit(s[self.current as int]),
            decreases s.len() - self.current,
        {
            if self.at_end() {
                break ;
            }
            if !is_digit_char(self.peek()) {
                break ;
            }
            let _consumed = self.advance();
        }
        assert(self.current as int == digit_run_end(s, i0));
        let d1: usize = self.current;
        // Look for a fractional part: a `.` counts only when a digit
        // follows it directly.
        if self.peek() == '.' && is_digit_char(self.peek_next()) {
            // Consume the `.`
            let _dot = self.advance();
            proof {
                lemma_digit_run_end(s, d1 + 1);
            }
            loop
                invariant
                    self.wf(),
                    self.source_chars@ == s,
                    self.source == old(self).source,
                    self.source_chars == old(self).source_chars,
                    self.start == old(self).start,
                    self.token_list == old(self).token_list,
                    self.errors == old(self).errors,
                    self.line == old(self).line,
                    i0 == self.start as int,
                    d1 as int + 1 <= self.current as int <= s.len(),
                    digit_run_end(s, d1 as int + 1) == digit_run_end(s, self.current as int),
                ensures
                    self.current as int == s.len() || !is_digit(s[self.current as int]),
                decreases s.len() - self.current,
            {
                if self.at_end() {
                    break ;
                }
                if !is_digit_char(self.peek()) {
                    break ;
                }
                let _consumed = self.advance();
            }
            assert(self.current as int == digit_run_end(s, d1 as int + 1));
            let int_chars = copy_range(&self.source_chars, self.start, d1);
            let frac_chars = copy_range(&self.source_chars, d1 + 1, self.current);
            let int_digits = chars_to_string(int_chars.as_slice());
            let frac_digits = chars_to_string(frac_chars.as_slice());
            self.add_token(
                TokenType::Number,
                LiteralType::Float(Decimal { int_digits, frac_digits }),
            );
        } else {
            let int_chars = copy_range(&self.source_chars, self.start, self.current);
            let int_digits = chars_to_string(int_chars.as_slice());
            self.add_token(
                TokenType::Number,
                LiteralType::Float(Decimal { int_digits, frac_digits: String::new() }),
            );
        }
        proof {
            let st = number_step(s, i0, old(self).line as int);
            assert(self.toks() =~= old(self).toks() + opt_seq(st.token));
            assert(self.errs() =~= old(self).errs() + opt_seq(st.error));
        }
    }

    /// Consumes an identifier or reserved word: the leading letter has just
    /// been consumed. The maximal run of letters and digits is looked up in
    /// the reserved-word table by exact, case-sensitive match.
    fn identifier(&mut self)
        requires
            old(self).wf(),
            old(self).start + 1 == old(self).current,
            is_alpha(old(self).src()[old(self).start as int]),
        ensures
            final(self).wf(),
            ({
                let st = identifier_step(
                    old(self).src(),
                    old(self).start as int,
                    old(self).line as int,
                );
                &&& final(self).current as int == st.next
                &&& final(self).line as int == st.line
                &&& final(self).toks() == old(self).toks() + opt_seq(st.token)
                &&& final(self).errs() == old(self).errs() + opt_seq(st.error)
            }),
            final(self).source == old(self).source,
            final(self).source_chars == old(self).source_chars,
            final(self).start == old(self).start,
    {
        let ghost s = self.src();
        let ghost i0: int = self.start as int;
        proof {
            lemma_alnum_run_end(s, i0);
        }
        loop
            invariant
                self.wf(),
                self.source_chars@ == s,
                self.source == old(self).source,
                self.source_chars == old(self).source_chars,
                self.start == old(self).start,
                self.token_list == old(self).token_list,
                self.errors == old(self).errors,
                self.line == old(self).line,
                i0 + 1 <= self.current as int <= s.len(),
                i0 == self.start as int,
                alnum_run_end(s, i0) == alnum_run_end(s, self.current as int),
            ensures
                self.current as int == s.len() || !is_alnum(s[self.current as int]),
            decreases s.len() - self.current,
        {
            if self.at_end() {
                break ;
            }
            if !is_alnum_char(self.peek()) {
                break ;
            }
            let _consumed = self.advance();
        }
        assert(self.current as int == alnum_run_end(s, i0));
        let text_chars = copy_range(&self.source_chars, self.start, self.current);
        let text = chars_to_string(text_chars.as_slice());
        let t_type = if let Some(val) = keyword_kind(&text) {
            val
        } else {
            TokenType::Identifier
        };
        self.add_ntoken(t_type);
        proof {
            let st = identifier_step(s, i0, old(self).line as int);
            assert(self.toks() =~= old(self).toks() + opt_seq(st.token));
            assert(self.errs() =~= old(self).errs() + opt_seq(st.error));
        }
    }

    /// Scans one token starting at the cursor: consumes one character and
    /// dispatches on it, emitting at most one token and at most one error,
    /// exactly as `scan_step` describes.
    fn scan_token(&mut self)
        requires
            old(self).wf(),
            old(self).start == old(self).current,
            old(self).current < old(self).src().len(),
        ensures
            final(self).wf(),
            ({
                let st = scan_step(old(self).src(), old(self).start as int, old(self).line as int);
                &&& final(self).current as int == st.next
                &&& final(self).line as int == st.line
                &&& final(self).toks() == old(self).toks() + opt_seq(st.token)
                &&& final(self).errs() == old(self).errs() + opt_seq(st.error)
            }),
            final(self).source == old(self).source,
            final(self).source_chars == old(self).source_chars,
            final(self).start == old(self).start,
    {
        let ghost s = self.src();
        let ghost i0: int = self.start as int;
        let ghost l0: int = self.line as int;
        let c = self.advance();
        match c {
            ')' => self.add_ntoken(TokenType::RightParen),
            '(' => self.add_ntoken(TokenType::LeftParen),
            '{' => self.add_ntoken(TokenType::LeftBrace),
            '}' => self.add_ntoken(TokenType::RightBrace),
            '.' => self.add_ntoken(TokenType::Dot),
            ',' => self.add_ntoken(TokenType::Comma),
            '-' => self.add_ntoken(TokenType::Minus),
            '+' => self.add_ntoken(TokenType::Plus),
            ';' => self.add_ntoken(TokenType::SemiColon),
            '*' => self.add_ntoken(TokenType::Star),
            '!' => {
                if self.expect_char('=') {
                    self.add_ntoken(TokenType::BangEqual);
                } else {
                    self.add_ntoken(TokenType::Bang);
                }
            },
            '=' => {
                if self.expect_char('=') {
                    self.add_ntoken(TokenType::DoubleEqual);
                } else {
                    self.add_ntoken(TokenType::Equal);
                }
            },
            '>' => {
                if self.expect_char('=') {
                    self.add_ntoken(TokenType::GreaterEqual);
                } else {
                    self.add_ntoken(TokenType::Greater);
                }
            },
            '<' => {
                if self.expect_char('=') {
                    self.add_ntoken(TokenType::LessEqual);
                } else {
                    self.add_ntoken(TokenType::Less);
                }
            },
            '/' => {
                if self.expect_char('/') {
                    // A comment runs to the end of the physical line and is
                    // discarded; the newline itself is left for the next
                    // step.
                    proof {
                        lemma_comment_end(s, i0 + 2);
                    }
                    loop
                        invariant
                            self.wf(),
                            self.source_chars@ == s,
                            self.source == old(self).source,
                            self.source_chars == old(self).source_chars,
                            self.start == old(self).start,
                            self.token_list == old(self).token_list,
                            self.errors == old(self).errors,
                            self.line == old(self).line,
                            i0 == self.start as int,
                            i0 + 2 <= self.current as int <= s.len(),
                            comment_end(s, i0 + 2) == comment_end(s, self.current as int),
                        ensures
                            self.current as int == s.len() || s[self.current as int] == '\n',
                        decreases s.len() - self.current,
                    {
                        if self.at_end() {
                            break ;
                        }
                        if self.peek() == '\n' {
                            break ;
                        }
                        let _consumed = self.advance();
                    }
                    assert(self.current as int == comment_end(s, i0 + 2));
                } else {
                    self.add_ntoken(TokenType::ForwardSlash);
                }
            },
            '"' => self.string(),
            // Whitespace between tokens is consumed without effect
            ' ' => (),
            '\t' => (),
            '\r' => (),
            // A newline only advances the line counter
            '\n' => {
                self.line = self.line + 1;
            },
            _ => {
                if is_digit_char(c) {
                    self.number();
                } else if is_alpha_char(c) {
                    self.identifier();
                } else {
                    // No dispatch rule matches: report and carry on with
                    // the next character.
                    self.errors.push(
                        LexError { line: self.line, kind: LexErrorKind::UnexpectedCharacter },
                    );
                }
            },
        }
        proof {
            let st = scan_step(s, i0, l0);
            assert(self.toks() =~= old(self).toks() + opt_seq(st.token));
            assert(self.errs() =~= old(self).errs() + opt_seq(st.error));
        }
    }

    /// Scans the whole remaining source: repeats `scan_token` until the
    /// input is exhausted, then appends the single end-of-input token at
    /// the final line reached. Tokens and errors are appended, in source
    /// order, to whatever the lists already held.
    pub fn scan_tokens(&mut self)
        requires
            old(self).wf(),
        ensures
            final(self).wf(),
            ({
                let r = scan_from(old(self).src(), old(self).current as int, old(self).line as int);
                &&& final(self).toks() == old(self).toks() + r.tokens
                &&& final(self).errs() == old(self).errs() + r.errors
            }),
            final(self).current == final(self).src().len(),
            final(self).source == old(self).source,
            final(self).source_chars == old(self).source_chars,
    {
        let ghost s = self.src();
        let ghost c0: int = self.current as int;
        let ghost l0: int = self.line as int;
        loop
            invariant
                self.wf(),
                self.source_chars@ == s,
                self.source == old(self).source,
                self.source_chars == old(self).source_chars,
                c0 == old(self).current as int,
                l0 == old(self).line as int,
                ({
                    let r0 = scan_from(s, c0, l0);
                    let r = scan_from(s, self.current as int, self.line as int);
                    &&& old(self).toks() + r0.tokens == self.toks() + r.tokens
                    &&& old(self).errs() + r0.errors == self.errs() + r.errors
                }),
            ensures
                self.current as int == s.len(),
            decreases s.len() - self.current,
        {
            if self.at_end() {
                break ;
            }
            self.start = self.current;
            let ghost cur: int = self.current as int;
            let ghost ln: int = self.line as int;
            let ghost pre_toks = self.toks();
            let ghost pre_errs = self.errs();
            proof {
                lemma_step_bounds(s, cur, ln);
            }
            self.scan_token();
            proof {
                let st = scan_step(s, cur, ln);
                let r_pre = scan_from(s, cur, ln);
                let r_post = scan_from(s, st.next, st.line);
                assert(r_pre.tokens == opt_seq(st.token) + r_post.tokens);
                assert(r_pre.errors == opt_seq(st.error) + r_post.errors);
                assert(pre_toks + r_pre.tokens =~= (pre_toks + opt_seq(st.token)) + r_post.tokens);
                assert(pre_errs + r_pre.errors =~= (pre_errs + opt_seq(st.error)) + r_post.errors);
            }
        }
        self.token_list.push(
            Token {
                token_type: TokenType::EndOfInput,
                lexem: String::new(),
                literal: LiteralType::Null,
                line: self.line,
            },
        );
        proof {
            let r = scan_from(s, self.current as int, self.line as int);
            assert(self.toks() =~= (self.toks().drop_last()) + r.tokens);
            assert(self.errs() =~= self.errs() + r.errors);
        }
    }
}

impl Default for Scanner {
    /// An empty scanner: no source, no tokens, no errors, line 1.
    fn default() -> (r: Scanner)
        ensures
            r.wf(),
            r.src() == Seq::<char>::empty(),
            r.source@ == Seq::<char>::empty(),
            r.toks() == Seq::<SpecToken>::empty(),
            r.errs() == Seq::<SpecError>::empty(),
            r.start == 0,
            r.current == 0,
            r.line == 1,
    {
        let r = Scanner {
            source: String::new(),
            source_chars: Vec::new(),
            token_list: Vec::new(),
            errors: Vec::new(),
            start: 0,
            current: 0,
            line: 1,
        };
        assert(r.toks() =~= Seq::<SpecToken>::empty());
        assert(r.errs() =~= Seq::<SpecError>::empty());
        r
    }
}

} // verus!
