//! Token data model: the closed set of token kinds, literal values, the
//! `Token` record itself, lexical error reports, and the keyword table.

use vstd::prelude::*;

verus! {

/// The closed set of lexical categories a token can fall into.
///
/// The operator kinds `Ampersand`, `DoubleAmpersand`, `Modulo`,
/// `DoubleModulo` and `DoubleForwardSlash`, and the keyword kind `And`, are
/// declared for forward compatibility: the current dispatch table never
/// produces them (`//` starts a comment rather than an operator, and `and`
/// is absent from the reserved-word table).
#[derive(Clone, Copy, Debug, PartialEq, Eq, Structural)]
pub enum TokenType {
    // Single-character tokens
    LeftParen,
    RightParen,
    LeftBrace,
    RightBrace,
    Comma,
    Dot,
    Minus,
    Plus,
    SemiColon,
    Star,
    // One- or two-character operators
    Bang,
    BangEqual,
    Equal,
    DoubleEqual,
    Greater,
    GreaterEqual,
    Less,
    LessEqual,
    Ampersand,
    DoubleAmpersand,
    Modulo,
    DoubleModulo,
    ForwardSlash,
    DoubleForwardSlash,
    // Literals
    Identifier,
    String,
    Number,
    // Keywords
    Class,
    Func,
    Var,
    If,
    Else,
    And,
    Or,
    Not,
    For,
    While,
    Null,
    // End-of-input marker, emitted exactly once as the last token
    EndOfInput,
}

/// An exact decimal numeric literal, kept as its digit strings.
///
/// The grammar for numbers is one digit run, optionally followed by `.` and
/// a second digit run, so every numeric literal is an exact decimal: its
/// value is `int_digits.frac_digits`. Keeping the digits (rather than a
/// machine float) keeps the value exact for any number of digits; a consumer
/// that wants a float parses the two runs itself.
#[derive(Debug, PartialEq)]
pub struct Decimal {
    /// Digits before the decimal point; never empty.
    pub int_digits: String,
    /// Digits after the decimal point; empty when the literal had no
    /// fractional part.
    pub frac_digits: String,
}

/// Mathematical model of a `Decimal`: the two digit runs.
#[verifier::ext_equal]
pub ghost struct SpecDecimal {
    pub int_digits: Seq<char>,
    pub frac_digits: Seq<char>,
}

impl View for Decimal {
    type V = SpecDecimal;

    open spec fn view(&self) -> SpecDecimal {
        SpecDecimal { int_digits: self.int_digits@, frac_digits: self.frac_digits@ }
    }
}

/// The tagged literal value attached to a token.
///
/// Only `String` and `Float` are produced by the current grammar; `Int` and
/// `Bool` are reserved for future literal forms. Tokens without a literal
/// carry `Null`.
#[derive(Debug, PartialEq)]
pub enum LiteralType {
    String(String),
    Int(i32),
    Float(Decimal),
    Bool(bool),
    Null,
}

/// Mathematical model of a `LiteralType`.
#[verifier::ext_equal]
pub ghost enum SpecLiteral {
    Str(Seq<char>),
    Int(int),
    Float(SpecDecimal),
    Bool(bool),
    Null,
}

impl View for LiteralType {
    type V = SpecLiteral;

    open spec fn view(&self) -> SpecLiteral {
        match self {
            LiteralType::String(s) => SpecLiteral::Str(s@),
            LiteralType::Int(i) => SpecLiteral::Int(*i as int),
            LiteralType::Float(d) => SpecLiteral::Float(d@),
            LiteralType::Bool(b) => SpecLiteral::Bool(*b),
            LiteralType::Null => SpecLiteral::Null,
        }
    }
}

/// One scanned token: its kind, the exact source substring that produced it,
/// an optional literal value, and the 1-based line it was emitted on.
#[derive(Debug, PartialEq)]
pub struct Token {
    pub token_type: TokenType,
    pub lexem: String,
    pub literal: LiteralType,
    pub line: u32,
}

/// Mathematical model of a `Token`.
#[verifier::ext_equal]
pub ghost struct SpecToken {
    pub token_type: TokenType,
    pub lexem: Seq<char>,
    pub literal: SpecLiteral,
    pub line: int,
}

impl View for Token {
    type V = SpecToken;

    open spec fn view(&self) -> SpecToken {
        SpecToken {
            token_type: self.token_type,
            lexem: self.lexem@,
            literal: self.literal@,
            line: self.line as int,
        }
    }
}

impl DeepView for Token {
    type V = SpecToken;

    open spec fn deep_view(&self) -> SpecToken {
        self.view()
    }
}

/// The two kinds of lexical error: input ended inside an open string
/// literal, or a character matched no dispatch rule.
#[derive(Clone, Copy, Debug, PartialEq, Eq, Structural)]
pub enum LexErrorKind {
    UnterminatedString,
    UnexpectedCharacter,
}

/// One reported lexical error: its kind and the 1-based line it was
/// reported at. Errors are diagnostics only: scanning continues past them.
#[derive(Clone, Copy, Debug, PartialEq, Eq, Structural)]
pub struct LexError {
    pub line: u32,
    pub kind: LexErrorKind,
}

/// Mathematical model of a `LexError`.
#[verifier::ext_equal]
pub ghost struct SpecError {
    pub line: int,
    pub kind: LexErrorKind,
}

impl View for LexError {
    type V = SpecError;

    open spec fn view(&self) -> SpecError {
        SpecError { line: self.line as int, kind: self.kind }
    }
}

impl DeepView for LexError {
    type V = SpecError;

    open spec fn deep_view(&self) -> SpecError {
        self.view()
    }
}

/// The diagnostic message text for each error kind.
pub open spec fn spec_error_message(kind: LexErrorKind) -> Seq<char> {
    match kind {
        LexErrorKind::UnterminatedString => "Unterminated string"@,
        LexErrorKind::UnexpectedCharacter => "Unexpected character"@,
    }
}

impl LexError {
    /// The diagnostic message for this error, as reported to the user.
    pub fn message(&self) -> (r: String)
        ensures
            r@ == spec_error_message(self.kind),
    {
        match self.kind {
            LexErrorKind::UnterminatedString => "Unterminated string".to_owned(),
            LexErrorKind::UnexpectedCharacter => "Unexpected character".to_owned(),
        }
    }
}

/// An ASCII decimal digit `0`..`9`.
pub open spec fn is_digit(c: char) -> bool {
    48 <= c as u32 <= 57
}

/// An ASCII letter `A`..`Z` or `a`..`z`. Identifiers must start with one;
/// underscores are not part of the current identifier grammar.
pub open spec fn is_alpha(c: char) -> bool {
    (65 <= c as u32 <= 90) || (97 <= c as u32 <= 122)
}

/// An ASCII letter or digit: the characters an identifier may continue with.
pub open spec fn is_alnum(c: char) -> bool {
    is_digit(c) || is_alpha(c)
}

/// Executable test for [`is_digit`].
pub fn is_digit_char(c: char) -> (r: bool)
    ensures
        r == is_digit(c),
{
    let u = c as u32;
    48 <= u && u <= 57
}

/// Executable test for [`is_alpha`].
pub fn is_alpha_char(c: char) -> (r: bool)
    ensures
        r == is_alpha(c),
{
    let u = c as u32;
    (65 <= u && u <= 90) || (97 <= u && u <= 122)
}

/// Executable test for [`is_alnum`].
pub fn is_alnum_char(c: char) -> (r: bool)
    ensures
        r == is_alnum(c),
{
    is_digit_char(c) || is_alpha_char(c)
}

/// The reserved-word table: the exact, case-sensitive spelling of each
/// keyword, mapped to its token kind. Any other identifier text scans as
/// `Identifier`.
///
/// `and` is deliberately not in the table, although `TokenType::And` is
/// declared: the language's current reserved-word set does not include it.
pub open spec fn spec_keyword_kind(text: Seq<char>) -> Option<TokenType> {
    if text == "class"@ {
        Some(TokenType::Class)
    } else if text == "func"@ {
        Some(TokenType::Func)
    } else if text == "var"@ {
        Some(TokenType::Var)
    } else if text == "if"@ {
        Some(TokenType::If)
    } else if text == "else"@ {
        Some(TokenType::Else)
    } else if text == "or"@ {
        Some(TokenType::Or)
    } else if text == "not"@ {
        Some(TokenType::Not)
    } else if text == "for"@ {
        Some(TokenType::For)
    } else if text == "while"@ {
        Some(TokenType::While)
    } else if text == "null"@ {
        Some(TokenType::Null)
    } else {
        None
    }
}

/// Looks `text` up in the reserved-word table.
pub fn keyword_kind(text: &String) -> (r: Option<TokenType>)
    ensures
        r == spec_keyword_kind(text@),
{
    if *text == "class".to_owned() {
        Some(TokenType::Class)
    } else if *text == "func".to_owned() {
        Some(TokenType::Func)
    } else if *text == "var".to_owned() {
        Some(TokenType::Var)
    } else if *text == "if".to_owned() {
        Some(TokenType::If)
    } else if *text == "else".to_owned() {
        Some(TokenType::Else)
    } else if *text == "or".to_owned() {
        Some(TokenType::Or)
    } else if *text == "not".to_owned() {
        Some(TokenType::Not)
    } else if *text == "for".to_owned() {
        Some(TokenType::For)
    } else if *text == "while".to_owned() {
        Some(TokenType::While)
    } else if *text == "null".to_owned() {
        Some(TokenType::Null)
    } else {
        None
    }
}

} // verus!
