use md_to_tui::error::Error;
use md_to_tui::parser::lexer::{Lexer, Token};

fn lex(input: &str) -> Vec<Token> {
    Lexer::new().parse(input).unwrap()
}

fn word(text: &str) -> Token {
    Token::Indent(text.into())
}

#[test]
fn get_next_token() {
    let input = r"# Test + --243a,.p ## test lol
2
";

    let tokens = vec![
        Token::EOL,
        Token::Heading(1),
        Token::WhiteSpace,
        Token::Indent("Test".into()),
        Token::WhiteSpace,
        Token::Plus,
        Token::WhiteSpace,
        Token::Dash,
        Token::Dash,
        Token::Indent("243a,".into()),
        Token::Dot,
        Token::Indent("p".into()),
        Token::WhiteSpace,
        Token::Heading(2),
        Token::WhiteSpace,
        Token::Indent("test".into()),
        Token::WhiteSpace,
        Token::Indent("lol".into()),
        Token::EOL,
        Token::Indent("2".into()),
        Token::EOL,
    ];

    let mut lexer = Lexer::new();

    let res = lexer.parse(input).unwrap();

    let mut diff: Vec<(Token, Token)> = vec![];
    for (i, t) in tokens.iter().enumerate() {
        if *t != res[i] {
            diff.push((t.clone(), res[i].clone()))
        }
    }

    println!("DIFF {:?}", diff);
    println!("TOKENS: {:?}\nres {:?}\n", tokens, res);
    assert_eq!(tokens, res);
}

#[test]
fn dummy() {
    let text = r"
    ### TODO

    use to do that in the 
lol

- lol 
";

    let mut lexer = Lexer::new();

    let res = lexer.parse(text);

    println!("{:?}", res);

    assert_eq!(true, true);
}

#[test]
fn dummy_text_gives_these_tokens() {
    let text = "\n    ### TODO\n\n- lol \n";
    assert_eq!(
        lex(text),
        vec![
            Token::EOL,
            Token::EOL,
            Token::WhiteSpace,
            Token::WhiteSpace,
            Token::WhiteSpace,
            Token::WhiteSpace,
            Token::Heading(3),
            Token::WhiteSpace,
            word("TODO"),
            Token::EOL,
            Token::EOL,
            Token::Dash,
            Token::WhiteSpace,
            word("lol"),
            Token::WhiteSpace,
            Token::EOL,
        ]
    );
}

#[test]
fn heading_depth_is_the_run_length() {
    assert_eq!(lex("####x"), vec![Token::EOL, Token::Heading(4), word("x")]);
}

#[test]
fn heading_depth_is_not_capped() {
    assert_eq!(lex("##########"), vec![Token::EOL, Token::Heading(10)]);
    let long = "#".repeat(300);
    assert_eq!(lex(&long), vec![Token::EOL, Token::Heading(300)]);
}

#[test]
fn separate_heading_runs_give_separate_tokens() {
    assert_eq!(
        lex("## #"),
        vec![Token::EOL, Token::Heading(2), Token::WhiteSpace, Token::Heading(1)]
    );
}

#[test]
fn word_run_is_maximal() {
    assert_eq!(lex("abc123,def"), vec![Token::EOL, word("abc123,def")]);
}

#[test]
fn space_parts_two_word_runs() {
    assert_eq!(lex("abc def"), vec![Token::EOL, word("abc"), Token::WhiteSpace, word("def")]);
}

#[test]
fn quotes_and_comma_belong_to_words() {
    assert_eq!(lex("it's,\"ok\""), vec![Token::EOL, word("it's,\"ok\"")]);
}

#[test]
fn word_class_is_exactly_letters_digits_comma_quotes() {
    let class = "abcdefghijklmnopqrstuvwxyzABCDEFGHIJKLMNOPQRSTUVWXYZ1234567890,\"'";
    assert_eq!(lex(class), vec![Token::EOL, word(class)]);
    for b in 0u8..128 {
        let text = String::from_utf8(vec![b'a', b, b'a']).unwrap();
        if class.as_bytes().contains(&b) {
            assert_eq!(lex(&text), vec![Token::EOL, word(&text)]);
        } else if let Ok(tokens) = Lexer::new().parse(&text) {
            assert_eq!(tokens.len(), 4);
            assert_eq!(tokens[1], word("a"));
            assert_eq!(tokens[3], word("a"));
        }
    }
}

#[test]
fn spaces_are_not_joined() {
    assert_eq!(
        lex("   "),
        vec![Token::EOL, Token::WhiteSpace, Token::WhiteSpace, Token::WhiteSpace]
    );
}

#[test]
fn empty_input_gives_the_opening_token_only() {
    assert_eq!(lex(""), vec![Token::EOL]);
}

#[test]
fn every_single_byte_token() {
    assert_eq!(
        lex("[]()<>.-=+*_`\\/:; \n"),
        vec![
            Token::EOL,
            Token::LeftSquare,
            Token::RightSquare,
            Token::RightParen,
            Token::LeftParen,
            Token::LeftAngle,
            Token::RightAngle,
            Token::Dot,
            Token::Dash,
            Token::Equal,
            Token::Plus,
            Token::Asterisk,
            Token::Undersocre,
            Token::BackTick,
            Token::BackSlash,
            Token::Slash,
            Token::Colon,
            Token::SemiColon,
            Token::WhiteSpace,
            Token::EOL,
        ]
    );
}

#[test]
fn null_byte_is_end_of_input_token() {
    assert_eq!(lex("a\0b"), vec![Token::EOL, word("a"), Token::EOF, word("b")]);
    assert_eq!(lex("\0"), vec![Token::EOL, Token::EOF]);
}

#[test]
fn recognized_bytes_never_give_an_illegal_token() {
    let recognized =
        "abcdefghijklmnopqrstuvwxyzABCDEFGHIJKLMNOPQRSTUVWXYZ0123456789,\"'#[]()<>.-=+*_`\\/:; \n\0";
    for c in recognized.chars() {
        let text = c.to_string();
        let tokens = lex(&text);
        assert_eq!(tokens.len(), 2);
        assert!(!matches!(tokens[1], Token::Illegal(_)));
    }
    let tokens = lex(recognized);
    assert!(tokens.iter().all(|t| !matches!(t, Token::Illegal(_))));
}

#[test]
fn every_other_byte_is_refused() {
    let recognized =
        "abcdefghijklmnopqrstuvwxyzABCDEFGHIJKLMNOPQRSTUVWXYZ0123456789,\"'#[]()<>.-=+*_`\\/:; \n\0";
    for b in 0u8..128 {
        if recognized.as_bytes().contains(&b) {
            continue;
        }
        let text = String::from_utf8(vec![b]).unwrap();
        assert_eq!(
            Lexer::new().parse(&text),
            Err(Error::LexerErr(format!("Token -> Illegal: {} ", b)))
        );
    }
}

#[test]
fn illegal_byte_gives_lexer_error() {
    let expected = Err(Error::LexerErr("Token -> Illegal: 1 ".into()));
    assert_eq!(Lexer::new().parse("\u{1}"), expected);
    assert_eq!(Lexer::new().parse("\u{1}abc"), expected);
    assert_eq!(Lexer::new().parse("ab\u{1}cd"), expected);
    assert_eq!(Lexer::new().parse("# a\nb\u{1}"), expected);
    assert_eq!(Lexer::new().parse("###\u{1}"), expected);
}

#[test]
fn the_first_illegal_byte_is_reported() {
    assert_eq!(
        Lexer::new().parse("ab\tcd\u{1}"),
        Err(Error::LexerErr("Token -> Illegal: 9 ".into()))
    );
    assert_eq!(
        Lexer::new().parse("a!b?"),
        Err(Error::LexerErr("Token -> Illegal: 33 ".into()))
    );
}

#[test]
fn bytes_of_other_scripts_are_refused() {
    assert_eq!(
        Lexer::new().parse("caf\u{e9}"),
        Err(Error::LexerErr("Token -> Illegal: 195 ".into()))
    );
    assert_eq!(
        Lexer::new().parse("\u{2022} item"),
        Err(Error::LexerErr("Token -> Illegal: 226 ".into()))
    );
}

#[test]
fn a_lexer_can_be_used_again() {
    let mut lexer = Lexer::new();
    let first = lexer.parse("# a\nb").unwrap();
    let failed = lexer.parse("x\u{1}");
    let second = lexer.parse("# a\nb").unwrap();
    assert!(failed.is_err());
    assert_eq!(first, second);
    assert_eq!(
        first,
        vec![
            Token::EOL,
            Token::Heading(1),
            Token::WhiteSpace,
            word("a"),
            Token::EOL,
            word("b"),
        ]
    );
}

#[test]
fn is_end_holds_of_the_two_end_tokens_only() {
    assert!(Token::EOL.is_end());
    assert!(Token::EOF.is_end());
    let others = vec![
        Token::Heading(1),
        word("a"),
        Token::WhiteSpace,
        Token::Tab,
        Token::LeftSquare,
        Token::RightSquare,
        Token::LeftParen,
        Token::RightParen,
        Token::LeftAngle,
        Token::RightAngle,
        Token::Dot,
        Token::Dash,
        Token::Equal,
        Token::Plus,
        Token::Asterisk,
        Token::Undersocre,
        Token::BackTick,
        Token::BackSlash,
        Token::Slash,
        Token::Colon,
        Token::SemiColon,
        Token::Illegal(0),
    ];
    for t in others {
        assert!(!t.is_end());
    }
}

#[test]
fn default_token_is_end_of_input() {
    assert_eq!(Token::default(), Token::EOF);
}

#[test]
fn token_descriptions() {
    assert_eq!(Token::Heading(1).to_string(), "Token -> Heading: #1");
    assert_eq!(Token::Heading(0).to_string(), "Token -> Heading: #0");
    assert_eq!(Token::Heading(12).to_string(), "Token -> Heading: #12");
    assert_eq!(Token::Heading(1234567890).to_string(), "Token -> Heading: #1234567890");
    assert_eq!(word("abc").to_string(), "Token -> Indent: abc ");
    assert_eq!(word("").to_string(), "Token -> Indent:  ");
    assert_eq!(Token::Illegal(1).to_string(), "Token -> Illegal: 1 ");
    assert_eq!(Token::Illegal(0).to_string(), "Token -> Illegal: 0 ");
    assert_eq!(Token::Illegal(255).to_string(), "Token -> Illegal: 255 ");
    assert_eq!(Token::WhiteSpace.to_string(), "Token -> WhiteSpace");
    assert_eq!(Token::Tab.to_string(), "Token -> Tab");
    assert_eq!(Token::EOL.to_string(), "Token -> EOL");
    assert_eq!(Token::EOF.to_string(), "Token -> EOF");
    assert_eq!(Token::LeftSquare.to_string(), "Token -> LeftSquare");
    assert_eq!(Token::RightSquare.to_string(), "Token -> RightSquare");
    assert_eq!(Token::LeftParen.to_string(), "Token -> LeftParen");
    assert_eq!(Token::RightParen.to_string(), "Token -> RightParen");
    assert_eq!(Token::LeftAngle.to_string(), "Token -> LeftAngle");
    assert_eq!(Token::RightAngle.to_string(), "Token -> RightAngle");
    assert_eq!(Token::Dot.to_string(), "Token -> Dot");
    assert_eq!(Token::Dash.to_string(), "Token -> Dash");
    assert_eq!(Token::Equal.to_string(), "Token -> Equal");
    assert_eq!(Token::Plus.to_string(), "Token -> Plus");
    assert_eq!(Token::Asterisk.to_string(), "Token -> Asterisk");
    assert_eq!(Token::Undersocre.to_string(), "Token -> Undersocre");
    assert_eq!(Token::BackTick.to_string(), "Token -> BackTick");
    assert_eq!(Token::BackSlash.to_string(), "Token -> BackSlash");
    assert_eq!(Token::Slash.to_string(), "Token -> Slash");
    assert_eq!(Token::Colon.to_string(), "Token -> Colon");
    assert_eq!(Token::SemiColon.to_string(), "Token -> SemiColon");
}

#[test]
fn error_messages() {
    assert_eq!(Error::DefErr.to_string(), "md-to-tui error:  Deafult error");
    assert_eq!(Error::ParserErr("x".into()).to_string(), "md-to-tui error:  Parser Err x");
    assert_eq!(Error::LexerErr("y".into()).to_string(), "md-to-tui error:  Parser Err y");
    assert_eq!(Error::default(), Error::DefErr);
    let failed = Lexer::new().parse("\u{1}").unwrap_err();
    assert_eq!(failed.to_string(), "md-to-tui error:  Parser Err Token -> Illegal: 1 ");
}
