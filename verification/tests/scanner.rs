use lox_front::scanner::{scan_text, split_lines, Error, Literal, Scanner, Token, TokenType};

fn scan(text: &str) -> (Vec<Token>, Option<Error>) {
    scan_text(text.to_string())
}

fn kinds(tokens: &[Token]) -> Vec<TokenType> {
    tokens.iter().map(|t| t.t_type).collect()
}

fn number_of(token: &Token) -> f64 {
    match &token.literal {
        Some(Literal::Number(text)) => text.parse::<f64>().unwrap(),
        other => panic!("not a number: {:?}", other),
    }
}

#[test]
fn number_with_fraction() {
    let (tokens, err) = scan("123.32");
    assert!(err.is_none());
    assert_eq!(tokens.len(), 1);
    assert_eq!(tokens[0].t_type, TokenType::Number);
    assert_eq!(number_of(&tokens[0]), 123.32);
    assert!(matches!(&tokens[0].literal, Some(Literal::Number(text)) if text == "123.32"));
    assert_eq!(tokens[0].lexeme, b"123.32".to_vec());
    assert_eq!(tokens[0].line, 1);
    assert_eq!(tokens[0].col, 6);
}

#[test]
fn number_without_fraction() {
    let (tokens, err) = scan("42");
    assert!(err.is_none());
    assert_eq!(kinds(&tokens), vec![TokenType::Number]);
    assert_eq!(number_of(&tokens[0]), 42.0);
}

#[test]
fn string_literal_without_quotes() {
    let (tokens, err) = scan("\"hello\"");
    assert!(err.is_none());
    assert_eq!(tokens.len(), 1);
    assert_eq!(tokens[0].t_type, TokenType::String);
    assert!(matches!(&tokens[0].literal, Some(Literal::Str(text)) if text == "hello"));
    assert_eq!(tokens[0].lexeme, b"\"hello\"".to_vec());
}

#[test]
fn unterminated_string() {
    let (tokens, err) = scan("\"hello");
    assert!(tokens.is_empty());
    let err = err.unwrap();
    assert_eq!(err.info, "Unterminated string found");
    assert_eq!(err.line, 1);
    assert_eq!(err.col, 6);
    assert_eq!(err.line_text, "\"hello");
}

#[test]
fn unterminated_string_after_tokens() {
    let (tokens, err) = scan("( + \"hello");
    assert_eq!(kinds(&tokens), vec![TokenType::LeftParen, TokenType::Plus]);
    assert_eq!(err.unwrap().info, "Unterminated string found");
}

#[test]
fn keywords_match_whole_words_only() {
    let (tokens, err) = scan("and or classify");
    assert!(err.is_none());
    assert_eq!(kinds(&tokens), vec![TokenType::And, TokenType::Or, TokenType::Identifier]);
    assert!(tokens[0].literal.is_none());
    assert!(tokens[1].literal.is_none());
    assert!(matches!(&tokens[2].literal, Some(Literal::Identifier(text)) if text == "classify"));
}

#[test]
fn every_keyword() {
    let (tokens, err) = scan(
        "and class else false for fun if nil or print return super this true var while lambda",
    );
    assert!(err.is_none());
    assert_eq!(
        kinds(&tokens),
        vec![
            TokenType::And,
            TokenType::Class,
            TokenType::Else,
            TokenType::False,
            TokenType::For,
            TokenType::Fun,
            TokenType::If,
            TokenType::Nil,
            TokenType::Or,
            TokenType::Print,
            TokenType::Return,
            TokenType::Super,
            TokenType::This,
            TokenType::True,
            TokenType::Var,
            TokenType::While,
            TokenType::Lambda,
        ]
    );
    assert!(tokens.iter().all(|t| t.literal.is_none()));
}

#[test]
fn keyword_case_matters() {
    let (tokens, _) = scan("And");
    assert_eq!(kinds(&tokens), vec![TokenType::Identifier]);
}

#[test]
fn number_before_more_text_is_an_error() {
    let (tokens, err) = scan("1 + 2 // comment\n3");
    assert!(tokens.is_empty());
    let err = err.unwrap();
    assert_eq!(err.info, "Invalid string at the end of the number: ` `");
    assert_eq!(err.line, 1);
    assert_eq!(err.col, 1);
    assert_eq!(err.line_text, "1 + 2 // comment");
}

#[test]
fn comment_runs_to_the_end_of_the_line() {
    let (tokens, err) = scan("+ - // comment ( ) \"\n3");
    assert!(err.is_none());
    assert_eq!(kinds(&tokens), vec![TokenType::Plus, TokenType::Minus, TokenType::Number]);
    assert_eq!(number_of(&tokens[2]), 3.0);
    assert_eq!(tokens[2].line, 2);
    assert_eq!(tokens[2].col, 1);
}

#[test]
fn comment_at_the_end_of_the_input() {
    let (tokens, err) = scan("; // nothing more");
    assert!(err.is_none());
    assert_eq!(kinds(&tokens), vec![TokenType::Semicolon]);
}

#[test]
fn slash_alone_is_division() {
    let (tokens, err) = scan("/ /");
    assert!(err.is_none());
    assert_eq!(kinds(&tokens), vec![TokenType::Slash, TokenType::Slash]);
}

#[test]
fn empty_text() {
    let (tokens, err) = scan("");
    assert!(tokens.is_empty());
    assert!(err.is_none());
}

#[test]
fn whitespace_only() {
    let (tokens, err) = scan(" \t\r\n  \n");
    assert!(tokens.is_empty());
    assert!(err.is_none());
}

#[test]
fn single_character_tokens() {
    let (tokens, err) = scan("(){}[],.-+;*/");
    assert!(err.is_none());
    assert_eq!(
        kinds(&tokens),
        vec![
            TokenType::LeftParen,
            TokenType::RightParen,
            TokenType::LeftBrace,
            TokenType::RightBrace,
            TokenType::LeftBracket,
            TokenType::RightBracket,
            TokenType::Comma,
            TokenType::Dot,
            TokenType::Minus,
            TokenType::Plus,
            TokenType::Semicolon,
            TokenType::Star,
            TokenType::Slash,
        ]
    );
    for (i, token) in tokens.iter().enumerate() {
        assert_eq!(token.col, i + 1);
        assert_eq!(token.lexeme.len(), 1);
        assert!(token.literal.is_none());
    }
}

#[test]
fn operators_take_a_following_equal() {
    let (tokens, err) = scan("!= == <= >= ! = < >");
    assert!(err.is_none());
    assert_eq!(
        kinds(&tokens),
        vec![
            TokenType::BangEqual,
            TokenType::EqualEqual,
            TokenType::LessEqual,
            TokenType::GreaterEqual,
            TokenType::Bang,
            TokenType::Equal,
            TokenType::Less,
            TokenType::Greater,
        ]
    );
    assert_eq!(tokens[0].lexeme, b"!=".to_vec());
    assert_eq!(tokens[0].col, 2);
    assert_eq!(tokens[4].lexeme, b"!".to_vec());
}

#[test]
fn operator_at_the_end_of_the_input() {
    let (tokens, err) = scan("!");
    assert!(err.is_none());
    assert_eq!(kinds(&tokens), vec![TokenType::Bang]);
    let (tokens, err) = scan("===");
    assert!(err.is_none());
    assert_eq!(kinds(&tokens), vec![TokenType::EqualEqual, TokenType::Equal]);
}

#[test]
fn unknown_character() {
    let (tokens, err) = scan("+ @ +");
    assert_eq!(kinds(&tokens), vec![TokenType::Plus]);
    let err = err.unwrap();
    assert_eq!(err.info, "Scanner can't handle: @");
    assert_eq!(err.line, 1);
    assert_eq!(err.col, 3);
    assert_eq!(err.line_text, "+ @ +");
}

#[test]
fn nothing_is_scanned_after_an_error() {
    let (tokens, err) = scan("( # ) ) )");
    assert_eq!(kinds(&tokens), vec![TokenType::LeftParen]);
    assert!(err.is_some());
}

#[test]
fn identifier_may_hold_digits() {
    let (tokens, err) = scan("a1b2 c");
    assert!(err.is_none());
    assert_eq!(kinds(&tokens), vec![TokenType::Identifier, TokenType::Identifier]);
    assert!(matches!(&tokens[0].literal, Some(Literal::Identifier(text)) if text == "a1b2"));
    assert_eq!(tokens[0].lexeme, b"a1b2".to_vec());
}

#[test]
fn keyword_followed_by_digit_is_an_identifier() {
    let (tokens, _) = scan("or2");
    assert_eq!(kinds(&tokens), vec![TokenType::Identifier]);
}

#[test]
fn number_ending_in_a_dot() {
    let (tokens, err) = scan("1.");
    assert!(tokens.is_empty());
    let err = err.unwrap();
    assert_eq!(err.info, "Invalid string at the end of the number: `.`");
    assert_eq!(err.col, 1);
}

#[test]
fn number_followed_by_a_letter() {
    let (tokens, err) = scan("12ab");
    assert!(tokens.is_empty());
    let err = err.unwrap();
    assert_eq!(err.info, "Invalid string at the end of the number: `a`");
    assert_eq!(err.col, 2);
}

#[test]
fn number_with_two_dots() {
    let (tokens, err) = scan("1.5.2");
    assert!(tokens.is_empty());
    let err = err.unwrap();
    assert_eq!(err.info, "Invalid string at the end of the number: `.`");
    assert_eq!(err.col, 3);
}

#[test]
fn long_numeral_keeps_its_text() {
    let text = "123456789012345678901234567890.5";
    let (tokens, err) = scan(text);
    assert!(err.is_none());
    assert!(matches!(&tokens[0].literal, Some(Literal::Number(t)) if t == text));
    assert_eq!(number_of(&tokens[0]), 123456789012345678901234567890.5);
}

#[test]
fn string_may_span_lines() {
    let (tokens, err) = scan("\"a\nb\" +");
    assert!(err.is_none());
    assert_eq!(kinds(&tokens), vec![TokenType::String, TokenType::Plus]);
    assert!(matches!(&tokens[0].literal, Some(Literal::Str(text)) if text == "a\nb"));
    assert_eq!(tokens[0].line, 1);
    assert_eq!(tokens[0].col, 5);
}

#[test]
fn string_keeps_backslashes() {
    let (tokens, err) = scan("\"a\\n\"");
    assert!(err.is_none());
    assert!(matches!(&tokens[0].literal, Some(Literal::Str(text)) if text == "a\\n"));
}

#[test]
fn string_with_wide_characters() {
    let (tokens, err) = scan("\"héllo → ok\"");
    assert!(err.is_none());
    assert!(matches!(&tokens[0].literal, Some(Literal::Str(text)) if text == "héllo → ok"));
}

#[test]
fn empty_string_literal() {
    let (tokens, err) = scan("\"\"");
    assert!(err.is_none());
    assert!(matches!(&tokens[0].literal, Some(Literal::Str(text)) if text.is_empty()));
}

#[test]
fn lines_are_counted_from_one() {
    let (tokens, err) = scan("+\n\n  -");
    assert!(err.is_none());
    assert_eq!(tokens[0].line, 1);
    assert_eq!(tokens[0].col, 1);
    assert_eq!(tokens[1].line, 3);
    assert_eq!(tokens[1].col, 3);
}

#[test]
fn error_shows_its_own_line() {
    let (_, err) = scan("+\r\n- @\r\n*");
    let err = err.unwrap();
    assert_eq!(err.line, 2);
    assert_eq!(err.col, 3);
    assert_eq!(err.line_text, "- @");
}

#[test]
fn word_that_is_not_utf8_is_an_error() {
    // The first byte of this character is alphabetic when read alone, the
    // second is not: the word is one byte that encodes nothing.
    let (tokens, err) = scan("x \u{e9}");
    assert_eq!(kinds(&tokens), vec![TokenType::Identifier]);
    let err = err.unwrap();
    assert_eq!(err.info, "Token is not valid UTF-8");
    assert_eq!(err.col, 3);
}

#[test]
fn word_of_two_alphabetic_bytes() {
    // Both bytes of this character are alphabetic when read alone.
    let (tokens, err) = scan("\u{ea}");
    assert!(err.is_none());
    assert_eq!(kinds(&tokens), vec![TokenType::Identifier]);
    assert!(matches!(&tokens[0].literal, Some(Literal::Identifier(text)) if text == "\u{ea}"));
    assert_eq!(tokens[0].col, 2);
}

#[test]
fn alphabetic_as_std_says() {
    for b in 0..=255u8 {
        let c = b as char;
        assert_eq!(Scanner::is_alpha(c), c.is_alphabetic(), "byte {}", b);
        assert_eq!(Scanner::is_decimal_digit(c), c.is_ascii_digit(), "byte {}", b);
        assert_eq!(
            Scanner::is_alphanumeric(c),
            c.is_alphabetic() || c.is_ascii_digit(),
            "byte {}",
            b
        );
    }
}

#[test]
fn lines_as_std_splits_them() {
    let samples = [
        "",
        "a",
        "a\n",
        "a\nb",
        "a\r\nb\r\n",
        "\n",
        "\n\n",
        "a\r",
        "a\r\r\nb",
        "\r\n",
        "x\n\ny\n",
        "héllo\nwörld",
    ];
    for text in samples {
        let expected: Vec<String> = text.lines().map(|l| l.to_string()).collect();
        assert_eq!(split_lines(&text.as_bytes().to_vec()), expected, "text {:?}", text);
    }
}

#[test]
fn line_that_is_not_utf8_is_shown_empty() {
    let lines = split_lines(&vec![b'a', b'\n', 0xff, b'\n', b'b']);
    assert_eq!(lines, vec!["a".to_string(), String::new(), "b".to_string()]);
}

#[test]
fn diagnostic_text() {
    let (_, err) = scan("var x = @");
    let err = err.unwrap();
    assert_eq!(
        err.diagnostic(),
        format!(
            "[ERROR] - {} \n {} \n at {}:{}(line:col)",
            err.info, err.line_text, err.line, err.col
        )
    );
    assert_eq!(err.diagnostic(), "[ERROR] - Scanner can't handle: @ \n var x = @ \n at 1:9(line:col)");
}

#[test]
fn scanner_keeps_its_results() {
    let mut scanner = Scanner::default();
    assert!(scanner.done());
    assert!(scanner.is_at_end());
    assert_eq!(scanner.cur_char(), None);
    scanner.scan_tokens("var x".to_string());
    assert_eq!(scanner.source(), &b"var x".to_vec());
    assert_eq!(kinds(scanner.tokens()), vec![TokenType::Var, TokenType::Identifier]);
    assert!(scanner.error().is_none());
    assert!(scanner.done());
    assert!(scanner.is_at_end());
}

#[test]
fn scanner_starts_again_on_each_scan() {
    let mut scanner = Scanner::default();
    scanner.scan_tokens("( @ )".to_string());
    assert!(scanner.error().is_some());
    assert!(scanner.done());
    assert!(!scanner.is_at_end());
    scanner.scan_tokens("\n)".to_string());
    assert!(scanner.error().is_none());
    assert_eq!(kinds(scanner.tokens()), vec![TokenType::RightParen]);
    assert_eq!(scanner.tokens()[0].line, 2);
}

#[test]
fn lexeme_is_the_text_consumed() {
    let text = "while (x) { print \"hi\"; }";
    let (tokens, err) = scan(text);
    assert!(err.is_none());
    let rebuilt: Vec<String> =
        tokens.iter().map(|t| String::from_utf8(t.lexeme.clone()).unwrap()).collect();
    assert_eq!(rebuilt, vec!["while", "(", "x", ")", "{", "print", "\"hi\"", ";", "}"]);
}

#[test]
fn stepping_past_an_error() {
    let mut scanner = Scanner::default();
    scanner.scan_tokens("( @ab".to_string());
    assert!(scanner.done());
    assert!(!scanner.is_at_end());
    assert_eq!(scanner.cur_char(), None);
    assert_eq!(scanner.advance(), 'a');
    assert!(!scanner.is_at_end());
    assert_eq!(scanner.advance(), 'b');
    assert!(scanner.is_at_end());
    assert_eq!(kinds(scanner.tokens()), vec![TokenType::LeftParen]);
}

#[test]
fn unknown_character_above_ascii() {
    // The first byte of this letter is the multiplication sign when read
    // alone, which starts no token.
    let (tokens, err) = scan("\u{5d0}");
    assert!(tokens.is_empty());
    let err = err.unwrap();
    assert_eq!(err.info, "Scanner can't handle: \u{d7}");
    assert_eq!(err.col, 1);
    assert_eq!(err.line_text, "\u{5d0}");
}

#[test]
fn number_before_a_nul_character() {
    let (tokens, err) = scan("7\0");
    assert!(tokens.is_empty());
    assert_eq!(err.unwrap().info, "Invalid string at the end of the number: `\0`");
}
