use flerry_lexer::{Lexer, TokenResult, TokenType};

fn expect_tokens(source: &str, expected_tokens: Vec<(TokenType, &str)>) {
    let mut lexer = Lexer::new(source);
    for (expected_type, expected_lexeme) in expected_tokens {
        lexer.skip_whitespaces();
        match lexer.lex() {
            TokenResult::Token(token) => {
                assert_eq!(token.ttype, expected_type);
                assert_eq!(token.lexeme, expected_lexeme);
            }
            TokenResult::Error(err) => {
                panic!("Lexer returned an error: {:?}", err);
            }
        }
    }
}

fn next_token(lexer: &mut Lexer) -> (TokenType, String, usize) {
    assert!(lexer.skip_whitespaces().is_none());
    match lexer.lex() {
        TokenResult::Token(token) => (token.ttype, token.lexeme.to_string(), token.line),
        TokenResult::Error(err) => panic!("Lexer returned an error: {:?}", err),
    }
}

#[test]
fn test_single_char_tokens() {
    expect_tokens(
        "()[]{} -",
        vec![
            (TokenType::LParen, "("),
            (TokenType::RParen, ")"),
            (TokenType::LSqBrace, "["),
            (TokenType::RSqBrace, "]"),
            (TokenType::LBrace, "{"),
            (TokenType::RBrace, "}"),
            (TokenType::Minus, "-"),
        ],
    );
}

#[test]
fn test_identifiers_and_keywords() {
    expect_tokens(
        "type struct enum if else elsif return while for match func end identifier_name anotherIdentifier",
        vec![
            (TokenType::Type, "type"),
            (TokenType::Struct, "struct"),
            (TokenType::Enum, "enum"),
            (TokenType::If, "if"),
            (TokenType::Else, "else"),
            (TokenType::Elsif, "elsif"),
            (TokenType::Return, "return"),
            (TokenType::While, "while"),
            (TokenType::For, "for"),
            (TokenType::Match, "match"),
            (TokenType::Func, "func"),
            (TokenType::End, "end"),
            (TokenType::Identifier, "identifier_name"),
            (TokenType::Identifier, "anotherIdentifier"),
        ],
    );
}

#[test]
fn test_literals_and_multi_char_operators() {
    expect_tokens(
        "123 45.67 \"hello world\" == != <= >= & && | ||",
        vec![
            (TokenType::Integer, "123"),
            (TokenType::Float, "45.67"),
            (TokenType::Strings, "\"hello world\""),
            (TokenType::EqualEqual, "=="),
            (TokenType::BangEqual, "!="),
            (TokenType::LessEqual, "<="),
            (TokenType::GreaterEqual, ">="),
            (TokenType::AmprSand, "&"),
            (TokenType::AmprAmprSand, "&&"),
            (TokenType::Pipe, "|"),
            (TokenType::PipePipe, "||"),
        ],
    );
}

#[test]
fn test_eof_and_errors() {
    let source = "\"unterminated string\n @";
    let mut lexer = Lexer::new(source);

    match lexer.lex() {
        TokenResult::Error(err) => {
            assert!(err.message.contains("unterminated string"));
        }
        _ => panic!("Expected an error for unterminated string"),
    }

    lexer.advance();
    lexer.skip_whitespaces();
    match lexer.lex() {
        TokenResult::Error(err) => {
            assert!(err.message.contains("unrecognized character"));
        }
        _ => panic!("Expected an error for unrecognized character"),
    }

    let source_eof = "";
    let mut lexer_eof = Lexer::new(source_eof);
    match lexer_eof.lex() {
        TokenResult::Token(token) => {
            assert_eq!(token.ttype, TokenType::Eof);
        }
        _ => panic!("Expected EOF token"),
    }
}

#[test]
fn test_arrows() {
    expect_tokens("=> ->", vec![(TokenType::FatArrow, "=>"), (TokenType::ThinArrow, "->")]);
}

#[test]
fn test_comments() {
    let mut lexer_single_line = Lexer::new("# This is a comment\n123");
    lexer_single_line.skip_whitespaces();
    match lexer_single_line.lex() {
        TokenResult::Token(token) => {
            assert_eq!(token.ttype, TokenType::Integer);
            assert_eq!(token.lexeme, "123");
        }
        _ => panic!("Expected integer after single line comment"),
    }

    let mut lexer_multi_line = Lexer::new("(* This is a multi-line comment *)\n456");
    lexer_multi_line.skip_whitespaces();
    match lexer_multi_line.lex() {
        TokenResult::Token(token) => {
            assert_eq!(token.ttype, TokenType::Integer);
            assert_eq!(token.lexeme, "456");
        }
        _ => panic!("Expected integer after multi-line comment"),
    }

    let mut lexer_nested_multi_line =
        Lexer::new("(* This is (* a nested *) multi-line comment *)\n789");
    lexer_nested_multi_line.skip_whitespaces();
    match lexer_nested_multi_line.lex() {
        TokenResult::Token(token) => {
            assert_eq!(token.ttype, TokenType::Integer);
            assert_eq!(token.lexeme, "789");
        }
        _ => panic!("Expected integer after nested multi-line comment"),
    }

    let mut lexer_unterminated = Lexer::new("(* This is an unterminated comment");
    match lexer_unterminated.skip_whitespaces() {
        Some(TokenResult::Error(err)) => {
            assert!(err.message.contains("Unterminated multi-line comment"));
        }
        _ => panic!("Expected error for unterminated multi-line comment"),
    }
}

#[test]
fn test_flerry_example() {
    let source = "func hello() =\n    print(\"Hello, World\")\nend\n\n\
                  func add(x, y) =\n    return x + y\nend\n\n\
                  func main() =\n    hello()\n    sum = add(2, 4)\n    (* result = 6 *)\nend\n";
    expect_tokens(
        source,
        vec![
            (TokenType::Func, "func"),
            (TokenType::Identifier, "hello"),
            (TokenType::LParen, "("),
            (TokenType::RParen, ")"),
            (TokenType::Equal, "="),
            (TokenType::Identifier, "print"),
            (TokenType::LParen, "("),
            (TokenType::Strings, "\"Hello, World\""),
            (TokenType::RParen, ")"),
            (TokenType::End, "end"),
            (TokenType::Func, "func"),
            (TokenType::Identifier, "add"),
            (TokenType::LParen, "("),
            (TokenType::Identifier, "x"),
            (TokenType::Comma, ","),
            (TokenType::Identifier, "y"),
            (TokenType::RParen, ")"),
            (TokenType::Equal, "="),
            (TokenType::Return, "return"),
            (TokenType::Identifier, "x"),
            (TokenType::Plus, "+"),
            (TokenType::Identifier, "y"),
            (TokenType::End, "end"),
            (TokenType::Func, "func"),
            (TokenType::Identifier, "main"),
            (TokenType::LParen, "("),
            (TokenType::RParen, ")"),
            (TokenType::Equal, "="),
            (TokenType::Identifier, "hello"),
            (TokenType::LParen, "("),
            (TokenType::RParen, ")"),
            (TokenType::Identifier, "sum"),
            (TokenType::Equal, "="),
            (TokenType::Identifier, "add"),
            (TokenType::LParen, "("),
            (TokenType::Integer, "2"),
            (TokenType::Comma, ","),
            (TokenType::Integer, "4"),
            (TokenType::RParen, ")"),
            (TokenType::End, "end"),
            (TokenType::Eof, ""),
        ],
    );
}

#[test]
fn every_punctuation_character_alone() {
    let table = [
        ("(", TokenType::LParen),
        (")", TokenType::RParen),
        ("[", TokenType::LSqBrace),
        ("]", TokenType::RSqBrace),
        ("{", TokenType::LBrace),
        ("}", TokenType::RBrace),
        (",", TokenType::Comma),
        (".", TokenType::Dot),
        ("+", TokenType::Plus),
        ("-", TokenType::Minus),
        ("/", TokenType::Slash),
        ("*", TokenType::Star),
        ("!", TokenType::Bang),
        ("=", TokenType::Equal),
        ("<", TokenType::Less),
        (">", TokenType::Greater),
        ("&", TokenType::AmprSand),
        ("|", TokenType::Pipe),
    ];
    for (text, kind) in table {
        let mut lexer = Lexer::new(text);
        let (ttype, lexeme, line) = next_token(&mut lexer);
        assert_eq!(ttype, kind);
        assert_eq!(lexeme, text);
        assert_eq!(line, 1);
        assert!(lexer.is_at_end());
    }
}

#[test]
fn two_character_operators_are_one_token() {
    for (text, kind) in [
        ("!=", TokenType::BangEqual),
        ("<=", TokenType::LessEqual),
        (">=", TokenType::GreaterEqual),
        ("&&", TokenType::AmprAmprSand),
        ("||", TokenType::PipePipe),
        ("->", TokenType::ThinArrow),
        ("=>", TokenType::FatArrow),
        ("==", TokenType::EqualEqual),
    ] {
        let mut lexer = Lexer::new(text);
        let (ttype, lexeme, _) = next_token(&mut lexer);
        assert_eq!(ttype, kind);
        assert_eq!(lexeme, text);
        assert_eq!(next_token(&mut lexer).0, TokenType::Eof);
    }
}

#[test]
fn operator_followed_by_other_character_stays_short() {
    expect_tokens(
        "!x<1>(&|-+=)",
        vec![
            (TokenType::Bang, "!"),
            (TokenType::Identifier, "x"),
            (TokenType::Less, "<"),
            (TokenType::Integer, "1"),
            (TokenType::Greater, ">"),
            (TokenType::LParen, "("),
            (TokenType::AmprSand, "&"),
            (TokenType::Pipe, "|"),
            (TokenType::Minus, "-"),
            (TokenType::Plus, "+"),
            (TokenType::Equal, "="),
            (TokenType::RParen, ")"),
            (TokenType::Eof, ""),
        ],
    );
}

#[test]
fn numeric_literals() {
    expect_tokens("123", vec![(TokenType::Integer, "123"), (TokenType::Eof, "")]);
    expect_tokens("45.67", vec![(TokenType::Float, "45.67"), (TokenType::Eof, "")]);
    expect_tokens(
        "45.",
        vec![(TokenType::Integer, "45"), (TokenType::Dot, "."), (TokenType::Eof, "")],
    );
    expect_tokens(
        "7.x",
        vec![(TokenType::Integer, "7"), (TokenType::Dot, "."), (TokenType::Identifier, "x")],
    );
}

#[test]
fn string_literal_keeps_quotes() {
    expect_tokens("\"hello\"", vec![(TokenType::Strings, "\"hello\""), (TokenType::Eof, "")]);
    expect_tokens("\"\"", vec![(TokenType::Strings, "\"\"")]);
}

#[test]
fn unterminated_string_reports_its_line() {
    let mut lexer = Lexer::new("\n\n\"open\nrest");
    assert!(lexer.skip_whitespaces().is_none());
    match lexer.lex() {
        TokenResult::Error(err) => {
            assert_eq!(err.line, 3);
            assert_eq!(err.message, "unterminated string at line 3.");
        }
        _ => panic!("Expected an error for unterminated string"),
    }
    assert_eq!(lexer.peek(), Some('\n'));

    let mut lexer = Lexer::new("\"no end");
    match lexer.lex() {
        TokenResult::Error(err) => {
            assert_eq!(err.line, 1);
            assert_eq!(err.message, "unterminated string at line 1.");
        }
        _ => panic!("Expected an error for unterminated string"),
    }
    assert!(lexer.is_at_end());
}

#[test]
fn unrecognized_character_names_it() {
    let mut lexer = Lexer::new("  @x");
    assert!(lexer.skip_whitespaces().is_none());
    match lexer.lex() {
        TokenResult::Error(err) => {
            assert_eq!(err.message, "Error: unrecognized character @");
            assert_eq!(err.line, 1);
        }
        _ => panic!("Expected an error for unrecognized character"),
    }
    assert_eq!(next_token(&mut lexer).1, "x");
}

#[test]
fn keywords_and_identifiers_partition() {
    expect_tokens(
        "types If _end end_ elsif2 match",
        vec![
            (TokenType::Identifier, "types"),
            (TokenType::Identifier, "If"),
            (TokenType::Identifier, "_end"),
            (TokenType::Identifier, "end_"),
            (TokenType::Identifier, "elsif2"),
            (TokenType::Match, "match"),
        ],
    );
}

#[test]
fn comments_are_transparent_and_count_lines() {
    for source in ["# comment\n123", "(* comment *)\n123", "(* outer (* inner *) still outer *)\n123"] {
        let mut lexer = Lexer::new(source);
        let (ttype, lexeme, line) = next_token(&mut lexer);
        assert_eq!(ttype, TokenType::Integer);
        assert_eq!(lexeme, "123");
        assert_eq!(line, 2);
        assert_eq!(next_token(&mut lexer).0, TokenType::Eof);
    }
    let mut lexer = Lexer::new("(* a\nb\n*) # c\n\t\r 9");
    assert_eq!(next_token(&mut lexer), (TokenType::Integer, "9".to_string(), 4));
}

#[test]
fn unterminated_block_comment() {
    let mut lexer = Lexer::new("\n(* unterminated\n");
    match lexer.skip_whitespaces() {
        Some(TokenResult::Error(err)) => {
            assert_eq!(err.message, "Unterminated multi-line comment");
            assert_eq!(err.line, 3);
        }
        _ => panic!("Expected error for unterminated multi-line comment"),
    }
    assert!(lexer.is_at_end());
}

#[test]
fn end_of_input_repeats() {
    let mut lexer = Lexer::new("x ");
    assert_eq!(next_token(&mut lexer).0, TokenType::Identifier);
    for _ in 0..3 {
        let (ttype, lexeme, line) = next_token(&mut lexer);
        assert_eq!(ttype, TokenType::Eof);
        assert_eq!(lexeme, "");
        assert_eq!(line, 1);
    }
    match lexer.lex() {
        TokenResult::Token(token) => assert_eq!(token.ttype, TokenType::Eof),
        _ => panic!("Expected EOF token"),
    }
}

#[test]
fn lines_of_integers() {
    let mut lexer = Lexer::new("1\n2\n3");
    for (i, expected) in ["1", "2", "3"].iter().enumerate() {
        let (ttype, lexeme, line) = next_token(&mut lexer);
        assert_eq!(ttype, TokenType::Integer);
        assert_eq!(lexeme, *expected);
        assert_eq!(line, i + 1);
    }
}

#[test]
fn cursor_helpers() {
    let mut lexer = Lexer::new("ab");
    assert_eq!(lexer.peek(), Some('a'));
    assert_eq!(lexer.peek_next(), Some('b'));
    assert_eq!(lexer.cur_char(), 'a');
    assert!(lexer.is_digit(Some('7')));
    assert!(!lexer.is_digit(None));
    assert!(lexer.is_alpha(Some('_')));
    assert!(!lexer.is_alpha(Some('1')));
    assert!(lexer.is_alphanumeric(Some('1')));
    assert_eq!(lexer.advance(), 'a');
    assert_eq!(lexer.peek(), Some('b'));
    assert_eq!(lexer.peek_next(), None);
    let token = lexer.token(TokenType::Identifier);
    assert_eq!(token.lexeme, "a");
    assert_eq!(lexer.advance(), 'b');
    assert!(lexer.is_at_end());
    assert_eq!(lexer.peek(), None);
    assert_eq!(lexer.cur_char(), '\0');
    let err = lexer.error_token("bad".to_string());
    assert_eq!(err.message, "bad");
    assert_eq!(err.line, 1);
}

#[test]
fn skipping_twice_changes_nothing() {
    let mut lexer = Lexer::new(" # a\n (* b *)\n\tx");
    assert!(lexer.skip_whitespaces().is_none());
    let first = lexer.peek();
    assert!(lexer.skip_whitespaces().is_none());
    assert_eq!(lexer.peek(), first);
    assert_eq!(next_token(&mut lexer), (TokenType::Identifier, "x".to_string(), 3));
}

#[test]
fn newline_read_by_lex_is_counted() {
    let mut lexer = Lexer::new("\nx");
    match lexer.lex() {
        TokenResult::Error(err) => {
            assert_eq!(err.line, 1);
            assert_eq!(err.message, "Error: unrecognized character \n");
        }
        _ => panic!("Expected an error for a newline read as a token"),
    }
    let (ttype, lexeme, line) = next_token(&mut lexer);
    assert_eq!(ttype, TokenType::Identifier);
    assert_eq!(lexeme, "x");
    assert_eq!(line, 2);
}

#[test]
fn numeric_literal_runs() {
    expect_tokens(
        "007 3.14159 12.x 9..1",
        vec![
            (TokenType::Integer, "007"),
            (TokenType::Float, "3.14159"),
            (TokenType::Integer, "12"),
            (TokenType::Dot, "."),
            (TokenType::Identifier, "x"),
            (TokenType::Integer, "9"),
            (TokenType::Dot, "."),
            (TokenType::Dot, "."),
            (TokenType::Integer, "1"),
        ],
    );
}

#[test]
fn unterminated_string_message_on_a_later_line() {
    let source = format!("{}\"open", "\n".repeat(11));
    let mut lexer = Lexer::new(&source);
    assert!(lexer.skip_whitespaces().is_none());
    match lexer.lex() {
        TokenResult::Error(err) => {
            assert_eq!(err.line, 12);
            assert_eq!(err.message, "unterminated string at line 12.");
        }
        _ => panic!("Expected an error for unterminated string"),
    }
}
