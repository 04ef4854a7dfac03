use rlox::Literal;
use rlox::Lox;
use rlox::Scanner;
use rlox::Token;
use rlox::TokenType;

fn chars(s: &str) -> Vec<char> {
    s.chars().collect()
}

fn scan(src: &str) -> (Vec<Token>, Lox) {
    let mut lox = Lox::new();
    let mut scanner = Scanner::new(String::from(src));
    let tokens = scanner.scan_tokens(&mut lox);
    (tokens, lox)
}

fn kinds(tokens: &[Token]) -> Vec<TokenType> {
    tokens.iter().map(|t| t.kind).collect()
}

#[test]
fn empty_source_yields_only_eof() {
    let (tokens, lox) = scan("");
    assert_eq!(tokens.len(), 1);
    assert_eq!(tokens[0].kind, TokenType::Eof);
    assert_eq!(tokens[0].lexeme, chars(""));
    assert_eq!(tokens[0].literal, Literal::Nil);
    assert_eq!(tokens[0].line, 1);
    assert!(!lox.had_error);
}

#[test]
fn token_sequence_always_ends_in_eof() {
    let (tokens, _) = scan("var answer = 42; // and @ some \"noise");
    assert!(tokens.len() >= 1);
    assert_eq!(tokens[tokens.len() - 1].kind, TokenType::Eof);
    let eof_count = tokens.iter().filter(|t| t.kind == TokenType::Eof).count();
    assert_eq!(eof_count, 1);
}

#[test]
fn whitespace_and_comments_scan_to_eof_alone() {
    let (tokens, lox) = scan(" \t\r// a comment\n   // another, unterminated");
    assert_eq!(tokens.len(), 1);
    assert_eq!(tokens[0].kind, TokenType::Eof);
    assert_eq!(tokens[0].line, 2);
    assert!(!lox.had_error);
    assert!(lox.errors.is_empty());
}

#[test]
fn classification_is_idempotent_for_keyword() {
    let (tokens, _) = scan("while (true)");
    assert_eq!(tokens[0].kind, TokenType::While);
    let again: String = tokens[0].lexeme.iter().collect();
    let (rescanned, _) = scan(&again);
    assert_eq!(rescanned.len(), 2);
    assert_eq!(rescanned[0].kind, TokenType::While);
}

#[test]
fn classification_is_idempotent_for_identifier() {
    let (tokens, _) = scan("forest + 1");
    assert_eq!(tokens[0].kind, TokenType::Identifier);
    let again: String = tokens[0].lexeme.iter().collect();
    let (rescanned, _) = scan(&again);
    assert_eq!(rescanned.len(), 2);
    assert_eq!(rescanned[0].kind, TokenType::Identifier);
    assert_eq!(rescanned[0].lexeme, chars("forest"));
}

#[test]
fn lexemes_concatenate_to_comment_stripped_source() {
    let (tokens, _) = scan("1 + 2 // the sum\nok");
    let joined: String = tokens
        .iter()
        .filter(|t| t.kind != TokenType::Eof)
        .flat_map(|t| t.lexeme.iter())
        .collect();
    assert_eq!(joined, "1+2ok");
}

#[test]
fn number_with_fraction_is_one_token() {
    let (tokens, lox) = scan("123.456");
    assert_eq!(tokens.len(), 2);
    assert_eq!(tokens[0].kind, TokenType::Number);
    assert_eq!(tokens[0].lexeme, chars("123.456"));
    match &tokens[0].literal {
        Literal::Number(digits) => {
            let text: String = digits.iter().collect();
            assert_eq!(text, "123.456");
            let value: f64 = text.parse().unwrap();
            assert!(value == 123.456);
        }
        other => panic!("expected a number literal, got {:?}", other),
    }
    assert!(!lox.had_error);
}

#[test]
fn keyword_needs_exact_match() {
    let (tokens, _) = scan("for");
    assert_eq!(tokens.len(), 2);
    assert_eq!(tokens[0].kind, TokenType::For);
    assert_eq!(tokens[0].lexeme, chars("for"));

    let (tokens, _) = scan("forest");
    assert_eq!(tokens.len(), 2);
    assert_eq!(tokens[0].kind, TokenType::Identifier);
    assert_eq!(tokens[0].lexeme, chars("forest"));
}

#[test]
fn bang_equal_is_one_token() {
    let (tokens, _) = scan("!=");
    assert_eq!(tokens.len(), 2);
    assert_eq!(tokens[0].kind, TokenType::BangEqual);
    assert_eq!(tokens[0].lexeme, chars("!="));
}

#[test]
fn unterminated_string_reports_and_still_ends_in_eof() {
    let (tokens, lox) = scan("\"abc");
    assert!(tokens.iter().all(|t| t.kind != TokenType::String));
    assert_eq!(tokens.len(), 1);
    assert_eq!(tokens[0].kind, TokenType::Eof);
    assert!(lox.had_error);
    assert_eq!(lox.errors.len(), 1);
    assert_eq!(lox.errors[0].line, 1);
    assert_eq!(lox.errors[0].message, "Unterminated string.");
}

#[test]
fn unexpected_character_reports_and_scan_continues() {
    let (tokens, lox) = scan("@");
    assert_eq!(tokens.len(), 1);
    assert_eq!(tokens[0].kind, TokenType::Eof);
    assert!(lox.had_error);
    assert_eq!(lox.errors.len(), 1);
    assert_eq!(lox.errors[0].line, 1);
    assert_eq!(lox.errors[0].message, "Unexpected character.");

    let (tokens, lox) = scan("@+");
    assert_eq!(kinds(&tokens), vec![TokenType::Plus, TokenType::Eof]);
    assert_eq!(lox.errors.len(), 1);
}

#[test]
fn line_numbers_follow_newlines() {
    let (tokens, _) = scan("1\n2");
    assert_eq!(tokens.len(), 3);
    assert_eq!(tokens[0].kind, TokenType::Number);
    assert_eq!(tokens[0].line, 1);
    assert_eq!(tokens[1].kind, TokenType::Number);
    assert_eq!(tokens[1].line, 2);
    assert_eq!(tokens[2].kind, TokenType::Eof);
    assert_eq!(tokens[2].line, 2);
}

#[test]
fn single_character_punctuation() {
    let (tokens, lox) = scan("(){},.-+;*");
    assert_eq!(
        kinds(&tokens),
        vec![
            TokenType::LeftParen,
            TokenType::RightParen,
            TokenType::LeftBrace,
            TokenType::RightBrace,
            TokenType::Comma,
            TokenType::Dot,
            TokenType::Minus,
            TokenType::Plus,
            TokenType::Semicolon,
            TokenType::Star,
            TokenType::Eof,
        ]
    );
    assert!(!lox.had_error);
}

#[test]
fn one_and_two_character_operators() {
    let (tokens, _) = scan("! != = == < <= > >=");
    assert_eq!(
        kinds(&tokens),
        vec![
            TokenType::Bang,
            TokenType::BangEqual,
            TokenType::Equal,
            TokenType::EqualEqual,
            TokenType::Less,
            TokenType::LessEqual,
            TokenType::Greater,
            TokenType::GreaterEqual,
            TokenType::Eof,
        ]
    );
}

#[test]
fn less_equal_munches_maximally() {
    let (tokens, _) = scan("<=>");
    assert_eq!(kinds(&tokens), vec![TokenType::LessEqual, TokenType::Greater, TokenType::Eof]);
}

#[test]
fn slash_token_and_comment_differ() {
    let (tokens, _) = scan("6/3 // half\n/");
    assert_eq!(
        kinds(&tokens),
        vec![
            TokenType::Number,
            TokenType::Slash,
            TokenType::Number,
            TokenType::Slash,
            TokenType::Eof,
        ]
    );
}

#[test]
fn string_literal_keeps_quotes_in_lexeme_only() {
    let (tokens, lox) = scan("\"hi there\"");
    assert_eq!(tokens.len(), 2);
    assert_eq!(tokens[0].kind, TokenType::String);
    assert_eq!(tokens[0].lexeme, chars("\"hi there\""));
    assert_eq!(tokens[0].literal, Literal::String(chars("hi there")));
    assert!(!lox.had_error);
}

#[test]
fn multiline_string_counts_lines_and_keeps_start_line() {
    let (tokens, lox) = scan("\"a\nb\"");
    assert_eq!(tokens.len(), 2);
    assert_eq!(tokens[0].kind, TokenType::String);
    assert_eq!(tokens[0].line, 1);
    assert_eq!(tokens[0].literal, Literal::String(chars("a\nb")));
    assert_eq!(tokens[1].kind, TokenType::Eof);
    assert_eq!(tokens[1].line, 2);
    assert!(!lox.had_error);
}

#[test]
fn trailing_dot_is_not_part_of_number() {
    let (tokens, _) = scan("123.");
    assert_eq!(kinds(&tokens), vec![TokenType::Number, TokenType::Dot, TokenType::Eof]);
    assert_eq!(tokens[0].lexeme, chars("123"));
}

#[test]
fn integer_number_has_exact_digit_literal() {
    let (tokens, _) = scan("42");
    assert_eq!(tokens[0].kind, TokenType::Number);
    assert_eq!(tokens[0].literal, Literal::Number(chars("42")));
}

#[test]
fn all_sixteen_keywords_classify() {
    let source = "and class else false for fun if nil or print return super this true var while";
    let (tokens, _) = scan(source);
    assert_eq!(
        kinds(&tokens),
        vec![
            TokenType::And,
            TokenType::Class,
            TokenType::Else,
            TokenType::False,
            TokenType::For,
            TokenType::Fun,
            TokenType::If,
            TokenType::Nil,
            TokenType::Or,
            TokenType::Print,
            TokenType::Return,
            TokenType::Super,
            TokenType::This,
            TokenType::True,
            TokenType::Var,
            TokenType::While,
            TokenType::Eof,
        ]
    );
}

#[test]
fn identifier_may_hold_underscores_and_digits() {
    let (tokens, _) = scan("_x1 y_2z");
    assert_eq!(
        kinds(&tokens),
        vec![TokenType::Identifier, TokenType::Identifier, TokenType::Eof]
    );
    assert_eq!(tokens[0].lexeme, chars("_x1"));
    assert_eq!(tokens[1].lexeme, chars("y_2z"));
}

#[test]
fn errors_do_not_stop_the_scan() {
    let (tokens, lox) = scan("var@#x");
    assert_eq!(
        kinds(&tokens),
        vec![TokenType::Var, TokenType::Identifier, TokenType::Eof]
    );
    assert_eq!(lox.errors.len(), 2);
    assert!(lox.had_error);
}

#[test]
fn unterminated_string_after_newlines_reports_last_line() {
    let (tokens, lox) = scan("1\n\"ab\ncd");
    assert_eq!(kinds(&tokens), vec![TokenType::Number, TokenType::Eof]);
    assert_eq!(lox.errors.len(), 1);
    assert_eq!(lox.errors[0].line, 3);
    assert_eq!(lox.errors[0].message, "Unterminated string.");
    assert_eq!(tokens[1].line, 3);
}

#[test]
fn dot_after_number_without_digit_splits() {
    let (tokens, _) = scan("1.x");
    assert_eq!(
        kinds(&tokens),
        vec![TokenType::Number, TokenType::Dot, TokenType::Identifier, TokenType::Eof]
    );
    assert_eq!(tokens[0].lexeme, chars("1"));
}

#[test]
fn triple_equal_munches_two_then_one() {
    let (tokens, _) = scan("===");
    assert_eq!(kinds(&tokens), vec![TokenType::EqualEqual, TokenType::Equal, TokenType::Eof]);
}

#[test]
fn lox_records_errors_in_order() {
    let mut lox = Lox::new();
    assert!(!lox.had_error);
    assert!(lox.errors.is_empty());
    lox.error(3, "first");
    lox.error(7, "second");
    assert!(lox.had_error);
    assert_eq!(lox.errors.len(), 2);
    assert_eq!(lox.errors[0].line, 3);
    assert_eq!(lox.errors[0].message, "first");
    assert_eq!(lox.errors[1].line, 7);
    assert_eq!(lox.errors[1].message, "second");
}

#[test]
fn tokens_carry_exact_source_substrings() {
    let (tokens, _) = scan("print \"ok\"; // done");
    assert_eq!(tokens[0].lexeme, chars("print"));
    assert_eq!(tokens[1].lexeme, chars("\"ok\""));
    assert_eq!(tokens[2].lexeme, chars(";"));
    assert_eq!(tokens[3].lexeme, chars(""));
    assert_eq!(tokens[3].kind, TokenType::Eof);
}
