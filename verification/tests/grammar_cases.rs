use jlox::scanner::{get_keywords_from_hashmap, is_alpha, is_digit, Scanner};
use jlox::text::{chars_of, push_decimal, string_of};
use jlox::token::{clone_tokens, Object, Token, TokenType};

fn scan(source: &str) -> Result<Vec<Token>, String> {
    Scanner::new(source).scan_tokens()
}

fn token(token_type: TokenType, lexeme: &str, literal: Object, line: usize) -> Token {
    Token { token_type, lexeme: lexeme.to_string(), literal, line }
}

fn plain(token_type: TokenType, lexeme: &str, line: usize) -> Token {
    token(token_type, lexeme, Object::IntVal(0), line)
}

fn number(lexeme: &str, line: usize) -> Token {
    token(TokenType::Number, lexeme, Object::FloatVal(lexeme.to_string()), line)
}

fn identifier(lexeme: &str, line: usize) -> Token {
    token(TokenType::Identifier, lexeme, Object::IdentifierVal(lexeme.to_string()), line)
}

fn float_of(token: &Token) -> f64 {
    match &token.literal {
        Object::FloatVal(text) => text.parse::<f64>().unwrap(),
        other => panic!("not a number: {:?}", other),
    }
}

#[test]
fn empty_source_is_one_eof() {
    assert_eq!(scan(""), Ok(vec![plain(TokenType::Eof, "", 1)]));
}

#[test]
fn white_space_only_is_one_eof() {
    assert_eq!(scan(" \t\r "), Ok(vec![plain(TokenType::Eof, "", 1)]));
    assert_eq!(scan(" \n\t\n\r\n"), Ok(vec![plain(TokenType::Eof, "", 4)]));
}

#[test]
fn every_punctuation_character_is_one_token() {
    let source = "(){},.-+;/*";
    let tokens = scan(source).unwrap();
    let expected = [
        TokenType::LeftParen,
        TokenType::RightParen,
        TokenType::LeftBrace,
        TokenType::RightBrace,
        TokenType::Comma,
        TokenType::Dot,
        TokenType::Minus,
        TokenType::Plus,
        TokenType::Semicolon,
        TokenType::Slash,
        TokenType::Star,
    ];
    assert_eq!(tokens.len(), expected.len() + 1);
    for (i, c) in source.chars().enumerate() {
        assert_eq!(tokens[i], plain(expected[i], &c.to_string(), 1));
    }
    assert_eq!(tokens[expected.len()], plain(TokenType::Eof, "", 1));
}

#[test]
fn repeated_punctuation_keeps_order() {
    let tokens = scan("))((/*/").unwrap();
    let types: Vec<TokenType> = tokens.iter().map(|t| t.token_type).collect();
    assert_eq!(
        types,
        vec![
            TokenType::RightParen,
            TokenType::RightParen,
            TokenType::LeftParen,
            TokenType::LeftParen,
            TokenType::Slash,
            TokenType::Star,
            TokenType::Slash,
            TokenType::Eof,
        ]
    );
}

#[test]
fn bang_equal_is_one_token() {
    assert_eq!(
        scan("!="),
        Ok(vec![plain(TokenType::BangEqual, "!=", 1), plain(TokenType::Eof, "", 1)])
    );
}

#[test]
fn operators_alone_and_with_equal() {
    assert_eq!(
        scan("! = < > != == <= >="),
        Ok(vec![
            plain(TokenType::Bang, "!", 1),
            plain(TokenType::Equal, "=", 1),
            plain(TokenType::Less, "<", 1),
            plain(TokenType::Greater, ">", 1),
            plain(TokenType::BangEqual, "!=", 1),
            plain(TokenType::EqualEqual, "==", 1),
            plain(TokenType::LessEqual, "<=", 1),
            plain(TokenType::GreaterEqual, ">=", 1),
            plain(TokenType::Eof, "", 1),
        ])
    );
}

#[test]
fn longest_match_reads_left_to_right() {
    assert_eq!(
        scan("===!<=>"),
        Ok(vec![
            plain(TokenType::EqualEqual, "==", 1),
            plain(TokenType::Equal, "=", 1),
            plain(TokenType::Bang, "!", 1),
            plain(TokenType::LessEqual, "<=", 1),
            plain(TokenType::Greater, ">", 1),
            plain(TokenType::Eof, "", 1),
        ])
    );
}

#[test]
fn comment_runs_to_the_end_of_the_line() {
    assert_eq!(
        scan("+ // all of this ( \" # is skipped\n-"),
        Ok(vec![
            plain(TokenType::Plus, "+", 1),
            plain(TokenType::Minus, "-", 2),
            plain(TokenType::Eof, "", 2),
        ])
    );
}

#[test]
fn comment_at_the_end_of_the_text() {
    assert_eq!(scan("//"), Ok(vec![plain(TokenType::Eof, "", 1)]));
    assert_eq!(scan("// no newline"), Ok(vec![plain(TokenType::Eof, "", 1)]));
}

#[test]
fn lone_slash_is_a_token() {
    assert_eq!(
        scan("/"),
        Ok(vec![plain(TokenType::Slash, "/", 1), plain(TokenType::Eof, "", 1)])
    );
    assert_eq!(
        scan("/ /"),
        Ok(vec![
            plain(TokenType::Slash, "/", 1),
            plain(TokenType::Slash, "/", 1),
            plain(TokenType::Eof, "", 1),
        ])
    );
}

#[test]
fn string_keeps_its_quotes_in_the_lexeme_only() {
    assert_eq!(
        scan("\"abc\""),
        Ok(vec![
            token(TokenType::String, "\"abc\"", Object::StringVal("abc".to_string()), 1),
            plain(TokenType::Eof, "", 1),
        ])
    );
}

#[test]
fn empty_string_literal() {
    assert_eq!(
        scan("\"\""),
        Ok(vec![
            token(TokenType::String, "\"\"", Object::StringVal(String::new()), 1),
            plain(TokenType::Eof, "", 1),
        ])
    );
}

#[test]
fn string_with_newlines_moves_the_line_counter() {
    assert_eq!(
        scan("\"a\nb\n\" x"),
        Ok(vec![
            token(TokenType::String, "\"a\nb\n\"", Object::StringVal("a\nb\n".to_string()), 1),
            identifier("x", 3),
            plain(TokenType::Eof, "", 3),
        ])
    );
}

#[test]
fn string_keeps_backslashes_as_they_are() {
    assert_eq!(
        scan("\"a\\nb\""),
        Ok(vec![
            token(TokenType::String, "\"a\\nb\"", Object::StringVal("a\\nb".to_string()), 1),
            plain(TokenType::Eof, "", 1),
        ])
    );
}

#[test]
fn string_holds_any_character() {
    assert_eq!(
        scan("\"h\u{e9}llo \u{1F600} # //\""),
        Ok(vec![
            token(
                TokenType::String,
                "\"h\u{e9}llo \u{1F600} # //\"",
                Object::StringVal("h\u{e9}llo \u{1F600} # //".to_string()),
                1
            ),
            plain(TokenType::Eof, "", 1),
        ])
    );
}

#[test]
fn two_strings_side_by_side() {
    assert_eq!(
        scan("\"a\"\"b\""),
        Ok(vec![
            token(TokenType::String, "\"a\"", Object::StringVal("a".to_string()), 1),
            token(TokenType::String, "\"b\"", Object::StringVal("b".to_string()), 1),
            plain(TokenType::Eof, "", 1),
        ])
    );
}

#[test]
fn unterminated_string_is_reported() {
    assert_eq!(scan("\"unterminated"), Err("Unterminated string at line 1\n".to_string()));
}

#[test]
fn unterminated_string_reports_the_last_line() {
    assert_eq!(scan("x\n\"a\nb\nc"), Err("Unterminated string at line 4\n".to_string()));
}

#[test]
fn stray_character_is_reported_with_its_line() {
    assert_eq!(scan("#"), Err("Unexpected character at line 1\n".to_string()));
    assert_eq!(scan("a\nb\n  # c"), Err("Unexpected character at line 3\n".to_string()));
}

#[test]
fn characters_outside_ascii_begin_no_token() {
    assert_eq!(scan("\u{e9}"), Err("Unexpected character at line 1\n".to_string()));
    assert_eq!(scan("a\u{e9}b"), Err("Unexpected character at line 1\n".to_string()));
}

#[test]
fn every_error_is_reported() {
    assert_eq!(
        scan("@ 1\n$ 2\n\n? \"open\n"),
        Err(
            "Unexpected character at line 1\nUnexpected character at line 2\nUnexpected character at line 4\nUnterminated string at line 5\n"
                .to_string()
        )
    );
}

#[test]
fn error_line_with_many_digits() {
    let mut source = String::new();
    for _ in 0..1234 {
        source.push('\n');
    }
    source.push('^');
    assert_eq!(scan(&source), Err("Unexpected character at line 1235\n".to_string()));
}

#[test]
fn numbers_with_and_without_fraction_have_the_same_value() {
    let whole = scan("123").unwrap();
    let fraction = scan("123.0").unwrap();
    assert_eq!(whole[0], number("123", 1));
    assert_eq!(fraction[0], number("123.0", 1));
    assert_eq!(float_of(&whole[0]), 123.0);
    assert_eq!(float_of(&fraction[0]), 123.0);
    assert_eq!(float_of(&whole[0]), float_of(&fraction[0]));
}

#[test]
fn number_then_point_without_digit() {
    assert_eq!(
        scan("12."),
        Ok(vec![number("12", 1), plain(TokenType::Dot, ".", 1), plain(TokenType::Eof, "", 1)])
    );
    assert_eq!(
        scan("12.x"),
        Ok(vec![
            number("12", 1),
            plain(TokenType::Dot, ".", 1),
            identifier("x", 1),
            plain(TokenType::Eof, "", 1),
        ])
    );
}

#[test]
fn number_takes_one_point_only() {
    assert_eq!(
        scan("1.5.25"),
        Ok(vec![
            number("1.5", 1),
            plain(TokenType::Dot, ".", 1),
            number("25", 1),
            plain(TokenType::Eof, "", 1),
        ])
    );
}

#[test]
fn point_before_a_number_is_a_token() {
    assert_eq!(
        scan(".5"),
        Ok(vec![plain(TokenType::Dot, ".", 1), number("5", 1), plain(TokenType::Eof, "", 1)])
    );
}

#[test]
fn number_keeps_its_text() {
    let tokens = scan("007.500").unwrap();
    assert_eq!(tokens[0], number("007.500", 1));
    assert_eq!(float_of(&tokens[0]), 7.5);
}

#[test]
fn long_number_has_a_value() {
    let tokens = scan("123456789012345678901234567890.5").unwrap();
    assert_eq!(tokens[0], number("123456789012345678901234567890.5", 1));
    assert_eq!(float_of(&tokens[0]), 123456789012345678901234567890.5);
}

#[test]
fn digits_then_letters_are_two_tokens() {
    assert_eq!(
        scan("12ab"),
        Ok(vec![number("12", 1), identifier("ab", 1), plain(TokenType::Eof, "", 1)])
    );
}

#[test]
fn identifier_takes_letters_digits_and_underscores() {
    assert_eq!(
        scan("_a1_B2 __ x9"),
        Ok(vec![
            identifier("_a1_B2", 1),
            identifier("__", 1),
            identifier("x9", 1),
            plain(TokenType::Eof, "", 1),
        ])
    );
}

#[test]
fn keyword_needs_the_exact_spelling() {
    assert_eq!(
        scan("or orchid OR classy fn fun function"),
        Ok(vec![
            plain(TokenType::Or, "or", 1),
            identifier("orchid", 1),
            identifier("OR", 1),
            identifier("classy", 1),
            plain(TokenType::Fn, "fn", 1),
            identifier("fun", 1),
            identifier("function", 1),
            plain(TokenType::Eof, "", 1),
        ])
    );
}

#[test]
fn keyword_carries_no_literal() {
    let tokens = scan("while").unwrap();
    assert_eq!(tokens[0], plain(TokenType::While, "while", 1));
}

#[test]
fn complete_example_in_full() {
    let tokens = scan("var this_is_var = 12;\nwhile true {print 3};").unwrap();
    assert_eq!(
        tokens,
        vec![
            plain(TokenType::Var, "var", 1),
            identifier("this_is_var", 1),
            plain(TokenType::Equal, "=", 1),
            number("12", 1),
            plain(TokenType::Semicolon, ";", 1),
            plain(TokenType::While, "while", 2),
            plain(TokenType::True, "true", 2),
            plain(TokenType::LeftBrace, "{", 2),
            plain(TokenType::Print, "print", 2),
            number("3", 2),
            plain(TokenType::RightBrace, "}", 2),
            plain(TokenType::Semicolon, ";", 2),
            plain(TokenType::Eof, "", 2),
        ]
    );
    assert_eq!(tokens[5].line, 2);
    assert_eq!(float_of(&tokens[3]), 12.0);
    assert_eq!(float_of(&tokens[9]), 3.0);
}

#[test]
fn successful_scan_ends_with_exactly_one_eof() {
    for source in ["", "   ", "\n\n", "a", "1 2 3", "// c", "\"s\"", "((("] {
        let tokens = scan(source).unwrap();
        let count = tokens.iter().filter(|t| t.token_type == TokenType::Eof).count();
        assert_eq!(count, 1);
        assert_eq!(tokens[tokens.len() - 1].token_type, TokenType::Eof);
        assert_eq!(tokens[tokens.len() - 1].lexeme, "");
        assert_eq!(tokens[tokens.len() - 1].literal, Object::IntVal(0));
    }
}

#[test]
fn eof_carries_the_last_line() {
    let tokens = scan("a\nb\n\nc\n").unwrap();
    assert_eq!(tokens[tokens.len() - 1], plain(TokenType::Eof, "", 5));
}

#[test]
fn lexemes_are_the_source_without_what_is_skipped() {
    let source = "var a=1.5;// note\nprint \"x y\" ;";
    let tokens = scan(source).unwrap();
    let joined: String = tokens.iter().map(|t| t.lexeme.as_str()).collect();
    assert_eq!(joined, "vara=1.5;print\"x y\";");
}

#[test]
fn carriage_return_does_not_count_as_a_line() {
    let tokens = scan("a\r\nb\rc").unwrap();
    assert_eq!(
        tokens,
        vec![identifier("a", 1), identifier("b", 2), identifier("c", 2), plain(TokenType::Eof, "", 2)]
    );
}

#[test]
fn nul_character_begins_no_token() {
    assert_eq!(scan("a\0b"), Err("Unexpected character at line 1\n".to_string()));
    assert_eq!(
        scan("\"a\0b\""),
        Ok(vec![
            token(TokenType::String, "\"a\0b\"", Object::StringVal("a\0b".to_string()), 1),
            plain(TokenType::Eof, "", 1),
        ])
    );
}

#[test]
fn second_pass_appends_another_eof() {
    let mut scanner = Scanner::new("a");
    let first = scanner.scan_tokens().unwrap();
    assert_eq!(first, vec![identifier("a", 1), plain(TokenType::Eof, "", 1)]);
    let second = scanner.scan_tokens().unwrap();
    assert_eq!(
        second,
        vec![identifier("a", 1), plain(TokenType::Eof, "", 1), plain(TokenType::Eof, "", 1)]
    );
}

#[test]
fn failed_pass_hands_back_no_token() {
    let mut scanner = Scanner::new("a b # c");
    assert_eq!(scanner.scan_tokens(), Err("Unexpected character at line 1\n".to_string()));
}

#[test]
fn digit_class() {
    assert!(is_digit('0'));
    assert!(is_digit('5'));
    assert!(is_digit('9'));
    assert!(!is_digit('/'));
    assert!(!is_digit(':'));
    assert!(!is_digit('a'));
    assert!(!is_digit('\u{0663}'));
}

#[test]
fn alpha_class() {
    assert!(is_alpha('a'));
    assert!(is_alpha('z'));
    assert!(is_alpha('A'));
    assert!(is_alpha('Z'));
    assert!(is_alpha('_'));
    assert!(!is_alpha('`'));
    assert!(!is_alpha('{'));
    assert!(!is_alpha('@'));
    assert!(!is_alpha('['));
    assert!(!is_alpha('0'));
    assert!(!is_alpha('\u{e9}'));
}

#[test]
fn keyword_table_has_every_reserved_word() {
    let table = get_keywords_from_hashmap();
    assert_eq!(table.len(), 16);
    assert_eq!(table.get("and"), Some(&TokenType::And));
    assert_eq!(table.get("class"), Some(&TokenType::Class));
    assert_eq!(table.get("else"), Some(&TokenType::Else));
    assert_eq!(table.get("false"), Some(&TokenType::False));
    assert_eq!(table.get("fn"), Some(&TokenType::Fn));
    assert_eq!(table.get("for"), Some(&TokenType::For));
    assert_eq!(table.get("if"), Some(&TokenType::If));
    assert_eq!(table.get("nil"), Some(&TokenType::Nil));
    assert_eq!(table.get("or"), Some(&TokenType::Or));
    assert_eq!(table.get("print"), Some(&TokenType::Print));
    assert_eq!(table.get("return"), Some(&TokenType::Return));
    assert_eq!(table.get("super"), Some(&TokenType::Super));
    assert_eq!(table.get("this"), Some(&TokenType::This));
    assert_eq!(table.get("true"), Some(&TokenType::True));
    assert_eq!(table.get("var"), Some(&TokenType::Var));
    assert_eq!(table.get("while"), Some(&TokenType::While));
    assert_eq!(table.get("And"), None);
    assert_eq!(table.get("an"), None);
    assert_eq!(table.get(""), None);
}

#[test]
fn decimal_rendering() {
    for (n, expected) in [
        (0usize, "0"),
        (7, "7"),
        (9, "9"),
        (10, "10"),
        (99, "99"),
        (100, "100"),
        (12345, "12345"),
        (1002003, "1002003"),
    ] {
        let mut out = String::new();
        push_decimal(&mut out, n);
        assert_eq!(out, expected);
    }
    let mut out = String::from("line ");
    push_decimal(&mut out, usize::MAX);
    assert_eq!(out, format!("line {}", usize::MAX));
}

#[test]
fn characters_of_a_text() {
    assert_eq!(chars_of(""), Vec::<char>::new());
    assert_eq!(chars_of("a\u{e9}\u{1F600}b"), vec!['a', '\u{e9}', '\u{1F600}', 'b']);
}

#[test]
fn string_of_a_stretch_of_characters() {
    let chars = vec!['h', 'e', 'l', 'l', 'o'];
    assert_eq!(string_of(&chars, 0, 5), "hello");
    assert_eq!(string_of(&chars, 1, 4), "ell");
    assert_eq!(string_of(&chars, 2, 2), "");
    assert_eq!(string_of(&chars, 4, 5), "o");
}

#[test]
fn tokens_are_copied_one_by_one() {
    let tokens = vec![
        plain(TokenType::Var, "var", 1),
        identifier("x", 1),
        number("1.5", 2),
        token(TokenType::String, "\"s\"", Object::StringVal("s".to_string()), 3),
    ];
    assert_eq!(clone_tokens(&tokens), tokens);
    assert_eq!(clone_tokens(&Vec::new()), Vec::<Token>::new());
    assert_eq!(tokens[2].clone(), number("1.5", 2));
    assert_eq!(tokens[3].literal.clone(), Object::StringVal("s".to_string()));
}

#[test]
fn long_source_is_scanned_in_one_pass() {
    let lines = 50_000;
    let mut source = String::new();
    for _ in 0..lines {
        source.push_str("abc 123 // note\n");
    }
    let tokens = scan(&source).unwrap();
    assert_eq!(tokens.len(), 2 * lines + 1);
    assert_eq!(tokens[0], identifier("abc", 1));
    assert_eq!(tokens[2 * lines - 1], number("123", lines));
    assert_eq!(tokens[2 * lines], plain(TokenType::Eof, "", lines + 1));
}
