use pix::errors::error;
use pix::scanning::Scanner;
use pix::tokens::Decimal;
use pix::tokens::LexError;
use pix::tokens::LexErrorKind;
use pix::tokens::LiteralType;
use pix::tokens::Token;
use pix::tokens::TokenType;

fn scan(source: &str) -> (Vec<Token>, Vec<LexError>) {
    let mut scanner = Scanner::new(source.to_string());
    scanner.scan_tokens();
    (scanner.token_list, scanner.errors)
}

fn kinds(tokens: &[Token]) -> Vec<TokenType> {
    tokens.iter().map(|t| t.token_type).collect()
}

#[test]
fn empty_input_scans_to_end_marker_only() {
    let (tokens, errors) = scan("");
    assert_eq!(kinds(&tokens), vec![TokenType::EndOfInput]);
    assert_eq!(tokens[0].lexem, "");
    assert_eq!(tokens[0].line, 1);
    assert!(matches!(tokens[0].literal, LiteralType::Null));
    assert!(errors.is_empty());
}

#[test]
fn whitespace_only_input_scans_to_end_marker_only() {
    let (tokens, errors) = scan(" \t\r \t");
    assert_eq!(kinds(&tokens), vec![TokenType::EndOfInput]);
    assert_eq!(tokens[0].line, 1);
    assert!(errors.is_empty());
}

#[test]
fn comment_without_trailing_newline_scans_to_zero_tokens() {
    let (tokens, errors) = scan("// comment text");
    assert_eq!(kinds(&tokens), vec![TokenType::EndOfInput]);
    assert!(errors.is_empty());
}

#[test]
fn input_ending_inside_comment_after_tokens() {
    let (tokens, errors) = scan("1 + 2 // unfinished");
    assert_eq!(
        kinds(&tokens),
        vec![TokenType::Number, TokenType::Plus, TokenType::Number, TokenType::EndOfInput]
    );
    assert!(errors.is_empty());
}

#[test]
fn bang_then_space_then_equal_is_not_bang_equal() {
    let (tokens, errors) = scan("! =");
    assert_eq!(kinds(&tokens), vec![TokenType::Bang, TokenType::Equal, TokenType::EndOfInput]);
    assert_eq!(tokens[0].lexem, "!");
    assert_eq!(tokens[1].lexem, "=");
    assert!(errors.is_empty());
}

#[test]
fn contiguous_two_char_operators_fold() {
    let (tokens, errors) = scan("!= == <= >=");
    assert_eq!(
        kinds(&tokens),
        vec![
            TokenType::BangEqual,
            TokenType::DoubleEqual,
            TokenType::LessEqual,
            TokenType::GreaterEqual,
            TokenType::EndOfInput,
        ]
    );
    assert_eq!(tokens[0].lexem, "!=");
    assert!(errors.is_empty());
}

#[test]
fn single_character_tokens() {
    let (tokens, errors) = scan("(){},.-+;*/");
    assert_eq!(
        kinds(&tokens),
        vec![
            TokenType::LeftParen,
            TokenType::RightParen,
            TokenType::LeftBrace,
            TokenType::RightBrace,
            TokenType::Comma,
            TokenType::Dot,
            TokenType::Minus,
            TokenType::Plus,
            TokenType::SemiColon,
            TokenType::Star,
            TokenType::ForwardSlash,
            TokenType::EndOfInput,
        ]
    );
    assert!(errors.is_empty());
}

#[test]
fn number_with_fraction_scans_to_one_token() {
    let (tokens, errors) = scan("12.5");
    assert_eq!(kinds(&tokens), vec![TokenType::Number, TokenType::EndOfInput]);
    assert_eq!(tokens[0].lexem, "12.5");
    assert_eq!(
        tokens[0].literal,
        LiteralType::Float(Decimal {
            int_digits: "12".to_string(),
            frac_digits: "5".to_string(),
        })
    );
    assert!(errors.is_empty());
}

#[test]
fn number_literal_has_float_value() {
    let (tokens, _) = scan("12.5");
    let value: f64 = match &tokens[0].literal {
        LiteralType::Float(d) => {
            let int_part: f64 = d.int_digits.parse().unwrap();
            let frac_part: f64 = if d.frac_digits.is_empty() {
                0.0
            } else {
                d.frac_digits.parse::<f64>().unwrap() / 10f64.powi(d.frac_digits.len() as i32)
            };
            int_part + frac_part
        },
        other => panic!("expected a Float literal, got {:?}", other),
    };
    assert_eq!(value, 12.5);
    // The lexeme itself parses to the same value.
    assert_eq!(tokens[0].lexem.parse::<f64>().unwrap(), 12.5);
}

#[test]
fn number_with_trailing_dot_leaves_the_dot() {
    let (tokens, errors) = scan("12.");
    assert_eq!(kinds(&tokens), vec![TokenType::Number, TokenType::Dot, TokenType::EndOfInput]);
    assert_eq!(tokens[0].lexem, "12");
    assert_eq!(
        tokens[0].literal,
        LiteralType::Float(Decimal {
            int_digits: "12".to_string(),
            frac_digits: "".to_string(),
        })
    );
    assert_eq!(tokens[1].lexem, ".");
    assert!(errors.is_empty());
}

#[test]
fn leading_dot_is_not_part_of_a_number() {
    let (tokens, errors) = scan(".5");
    assert_eq!(kinds(&tokens), vec![TokenType::Dot, TokenType::Number, TokenType::EndOfInput]);
    assert_eq!(tokens[1].lexem, "5");
    assert!(errors.is_empty());
}

#[test]
fn unterminated_string_reports_exactly_one_error() {
    let (tokens, errors) = scan("\"abc");
    assert_eq!(kinds(&tokens), vec![TokenType::EndOfInput]);
    assert_eq!(errors.len(), 1);
    assert_eq!(errors[0].kind, LexErrorKind::UnterminatedString);
    assert_eq!(errors[0].line, 1);
    assert_eq!(errors[0].message(), "Unterminated string");
}

#[test]
fn string_literal_excludes_quotes_lexeme_includes_them() {
    let (tokens, errors) = scan("\"hi\"");
    assert_eq!(kinds(&tokens), vec![TokenType::String, TokenType::EndOfInput]);
    assert_eq!(tokens[0].lexem, "\"hi\"");
    assert_eq!(tokens[0].literal, LiteralType::String("hi".to_string()));
    assert!(errors.is_empty());
}

#[test]
fn backslash_in_string_is_an_ordinary_character() {
    let (tokens, errors) = scan("\"a\\b\"");
    assert_eq!(kinds(&tokens), vec![TokenType::String, TokenType::EndOfInput]);
    assert_eq!(tokens[0].literal, LiteralType::String("a\\b".to_string()));
    assert!(errors.is_empty());
}

#[test]
fn multiline_string_counts_embedded_newlines() {
    let (tokens, errors) = scan("\"a\nb\"\nx");
    assert_eq!(
        kinds(&tokens),
        vec![TokenType::String, TokenType::Identifier, TokenType::EndOfInput]
    );
    // The string token reports the line its closing quote is on.
    assert_eq!(tokens[0].line, 2);
    assert_eq!(tokens[0].literal, LiteralType::String("a\nb".to_string()));
    // The token after the close-quote reports the line it itself starts on.
    assert_eq!(tokens[1].line, 3);
    assert_eq!(tokens[2].line, 3);
    assert!(errors.is_empty());
}

#[test]
fn capitalized_keyword_scans_as_identifier() {
    let (tokens, errors) = scan("If");
    assert_eq!(kinds(&tokens), vec![TokenType::Identifier, TokenType::EndOfInput]);
    assert_eq!(tokens[0].lexem, "If");
    assert!(errors.is_empty());
}

#[test]
fn keywords_scan_to_their_kinds() {
    let (tokens, errors) = scan("class func var if else or not for while null");
    assert_eq!(
        kinds(&tokens),
        vec![
            TokenType::Class,
            TokenType::Func,
            TokenType::Var,
            TokenType::If,
            TokenType::Else,
            TokenType::Or,
            TokenType::Not,
            TokenType::For,
            TokenType::While,
            TokenType::Null,
            TokenType::EndOfInput,
        ]
    );
    assert!(errors.is_empty());
}

#[test]
fn and_is_not_in_the_keyword_table() {
    let (tokens, errors) = scan("and");
    assert_eq!(kinds(&tokens), vec![TokenType::Identifier, TokenType::EndOfInput]);
    assert_eq!(tokens[0].lexem, "and");
    assert!(errors.is_empty());
}

#[test]
fn identifier_with_digits() {
    let (tokens, errors) = scan("x2y");
    assert_eq!(kinds(&tokens), vec![TokenType::Identifier, TokenType::EndOfInput]);
    assert_eq!(tokens[0].lexem, "x2y");
    assert!(errors.is_empty());
}

#[test]
fn unexpected_character_reports_error_and_continues() {
    let (tokens, errors) = scan("@+");
    assert_eq!(kinds(&tokens), vec![TokenType::Plus, TokenType::EndOfInput]);
    assert_eq!(errors.len(), 1);
    assert_eq!(errors[0].kind, LexErrorKind::UnexpectedCharacter);
    assert_eq!(errors[0].line, 1);
    assert_eq!(errors[0].message(), "Unexpected character");
}

#[test]
fn comment_discards_rest_of_line_only() {
    let (tokens, errors) = scan("1//x\n2");
    assert_eq!(
        kinds(&tokens),
        vec![TokenType::Number, TokenType::Number, TokenType::EndOfInput]
    );
    assert_eq!(tokens[0].line, 1);
    assert_eq!(tokens[1].line, 2);
    assert!(errors.is_empty());
}

#[test]
fn lexemes_partition_the_source() {
    let source = "var x = 12.5; // width\nif(x){y}";
    let (tokens, errors) = scan(source);
    assert!(errors.is_empty());
    // Re-inserting exactly the skipped whitespace/comment spans between
    // the lexemes reconstructs the source.
    let lexemes: Vec<&str> = tokens[..tokens.len() - 1].iter().map(|t| t.lexem.as_str()).collect();
    assert_eq!(
        lexemes,
        vec!["var", "x", "=", "12.5", ";", "if", "(", "x", ")", "{", "y", "}"]
    );
    let rebuilt = [
        "var", " ", "x", " ", "=", " ", "12.5", ";", " ", "// width", "\n", "if", "(", "x", ")",
        "{", "y", "}",
    ]
    .concat();
    assert_eq!(rebuilt, source);
}

#[test]
fn end_marker_carries_the_final_line() {
    let (tokens, errors) = scan("a\nb\nc");
    assert_eq!(tokens.last().unwrap().token_type, TokenType::EndOfInput);
    assert_eq!(tokens.last().unwrap().line, 3);
    assert!(errors.is_empty());
}

#[test]
fn default_scanner_is_empty() {
    let mut scanner = Scanner::default();
    assert_eq!(scanner.line, 1);
    assert_eq!(scanner.current, 0);
    scanner.scan_tokens();
    assert_eq!(kinds(&scanner.token_list), vec![TokenType::EndOfInput]);
    assert!(scanner.errors.is_empty());
}

#[test]
fn scanning_continues_after_errors() {
    let (tokens, errors) = scan("@\n\"open");
    assert_eq!(kinds(&tokens), vec![TokenType::EndOfInput]);
    assert_eq!(errors.len(), 2);
    assert_eq!(errors[0].kind, LexErrorKind::UnexpectedCharacter);
    assert_eq!(errors[0].line, 1);
    assert_eq!(errors[1].kind, LexErrorKind::UnterminatedString);
    assert_eq!(errors[1].line, 2);
}

#[test]
fn error_formatting_matches_the_diagnostic_shape() {
    assert_eq!(
        error(3, "Unexpected character".to_string()),
        "[line 3] Error : Unexpected character"
    );
    assert_eq!(error(120, "Unterminated string".to_string()), "[line 120] Error : Unterminated string");
    assert_eq!(error(0, "x".to_string()), "[line 0] Error : x");
}
