use nixeval::lexer::{Error, Lexer, LexicalError, Token};

#[test]
fn check_simple_lex() {
    let mut lexer = Lexer::new("1", Vec::with_capacity(10), 0);
    assert_eq!(lexer.yylex().unwrap(), Token::INT(1));

    let mut lexer = Lexer::new("some_id", Vec::with_capacity(10), 0);
    assert_eq!(lexer.yylex().unwrap(), Token::ID("some_id".to_string()));

    let mut lexer = Lexer::new("//", Vec::with_capacity(10), 0);
    assert_eq!(lexer.yylex().unwrap(), Token::UPDATE);

    let mut lexer = Lexer::new("./path", Vec::with_capacity(10), 0);
    assert_eq!(lexer.yylex().unwrap(), Token::PATH("./path".to_string()));

    let mut lexer = Lexer::new(r#""xx-s-xx""#, Vec::with_capacity(10), 0);
    lexer.yylex().unwrap();
    assert_eq!(
        lexer.yylex().unwrap(),
        Token::STRING_PART("xx-s-xx".to_string())
    );

    let mut lexer = Lexer::new(r#""xx-s\\-xx""#, Vec::with_capacity(10), 0);
    lexer.yylex().unwrap();
    assert_eq!(
        lexer.yylex().unwrap(),
        Token::STRING_PART(r"xx-s\\-xx".to_string())
    );
}

fn _collect(lexer: &mut Lexer, trace: bool) -> Vec<Token> {
    let mut ret = Vec::with_capacity(10);
    loop {
        let x = lexer.yylex();
        if trace {
            println!("- {:?}", x);
        }
        match x {
            Ok(x) => ret.push(x),
            Err(Error::EOF) => break,
            Err(Error::Unmatch) => panic!(
                "_collect failed at {:?}. So far: {:?}",
                lexer.error_state(),
                ret
            ),
        }
    }
    ret
}

#[test]
fn check_nested() {
    let mut lexer = Lexer::new(r#""x${1}x""#, Vec::with_capacity(10), 0);
    let vv = _collect(&mut lexer, false);
    println!("{:?}", vv);
    assert_eq!(
        vv,
        vec![
            Token::STRING_QUOTE,
            Token::STRING_PART("x".to_string()),
            Token::DOLLAR_CURLY,
            Token::INT(1),
            Token::CLOSE_CURLY,
            Token::STRING_PART("x".to_string()),
            Token::STRING_QUOTE,
        ]
    );
}

#[test]
fn check_attr_lambda() {
    let s = "{x, y, z}: x + y + z";
    let mut lexer = Lexer::new(s, Vec::with_capacity(10), 0);

    let vv = _collect(&mut lexer, false);
    println!("{:?}", vv);
    assert_eq!(
        vv,
        vec![
            Token::OPEN_CURLY,
            Token::ID("x".to_string()),
            Token::COMMA,
            Token::ID("y".to_string()),
            Token::COMMA,
            Token::ID("z".to_string()),
            Token::CLOSE_CURLY,
            Token::COLON,
            Token::ID("x".to_string()),
            Token::PLUS,
            Token::ID("y".to_string()),
            Token::PLUS,
            Token::ID("z".to_string())
        ]
    );
}

#[test]
fn check_regex() {
    let s = r#"splitFN = match "((.*)/)?([^/]*)\\.(nix|cc)"; "#;
    let mut lexer = Lexer::new(s, Vec::with_capacity(10), 0);
    let vv = _collect(&mut lexer, false);
    assert_eq!(
        vv,
        vec![
            Token::ID("splitFN".to_string()),
            Token::ASSIGN,
            Token::ID("match".to_string()),
            Token::STRING_QUOTE,
            Token::STRING_PART(r#"((.*)/)?([^/]*)\\.(nix|cc)"#.to_string()),
            Token::STRING_QUOTE,
            Token::SEMICOLON,
        ]
    );
}

#[test]
fn check_ad_hoc() {
    let mut lexer = Lexer::new("{ inherit pkgs; }", Vec::with_capacity(10), 0);
    let _vv = _collect(&mut lexer, true);
}

#[test]
fn keywords_and_operators() {
    let mut lexer = Lexer::new(
        "let f = x: y: x || y; in if f then 1 else 2",
        Vec::with_capacity(10),
        0,
    );
    let vv = _collect(&mut lexer, false);
    assert_eq!(
        vv,
        vec![
            Token::LET,
            Token::ID("f".to_string()),
            Token::ASSIGN,
            Token::ID("x".to_string()),
            Token::COLON,
            Token::ID("y".to_string()),
            Token::COLON,
            Token::ID("x".to_string()),
            Token::OR,
            Token::ID("y".to_string()),
            Token::SEMICOLON,
            Token::IN,
            Token::IF,
            Token::ID("f".to_string()),
            Token::THEN,
            Token::INT(1),
            Token::ELSE,
            Token::INT(2),
        ]
    );
}

#[test]
fn formals_with_defaults() {
    let mut lexer = Lexer::new("{ a ? 1, b ? 2, ... }: a", Vec::with_capacity(10), 0);
    let vv = _collect(&mut lexer, false);
    assert_eq!(
        vv,
        vec![
            Token::OPEN_CURLY,
            Token::ID("a".to_string()),
            Token::QUESTION,
            Token::INT(1),
            Token::COMMA,
            Token::ID("b".to_string()),
            Token::QUESTION,
            Token::INT(2),
            Token::COMMA,
            Token::ELLIPSIS,
            Token::CLOSE_CURLY,
            Token::COLON,
            Token::ID("a".to_string()),
        ]
    );
}

#[test]
fn float_literal() {
    let mut lexer = Lexer::new("1.5", Vec::with_capacity(10), 0);
    assert_eq!(lexer.yylex().unwrap(), Token::FLOAT("1.5".to_string()));
    assert_eq!(lexer.yylex(), Err(Error::EOF));
}

#[test]
fn absolute_path() {
    let mut lexer = Lexer::new("/a/b.nix", Vec::with_capacity(10), 0);
    assert_eq!(lexer.yylex().unwrap(), Token::PATH("/a/b.nix".to_string()));
}

#[test]
fn update_and_concat_operators() {
    let mut lexer = Lexer::new("a // b ++ c -> d == e != f", Vec::with_capacity(10), 0);
    let vv = _collect(&mut lexer, false);
    assert_eq!(
        vv,
        vec![
            Token::ID("a".to_string()),
            Token::UPDATE,
            Token::ID("b".to_string()),
            Token::CONCAT,
            Token::ID("c".to_string()),
            Token::IMPL,
            Token::ID("d".to_string()),
            Token::EQ,
            Token::ID("e".to_string()),
            Token::NEQ,
            Token::ID("f".to_string()),
        ]
    );
}

#[test]
fn standalone_dollar_stays_in_string() {
    let mut lexer = Lexer::new(r#""a$b""#, Vec::with_capacity(10), 0);
    let vv = _collect(&mut lexer, false);
    assert_eq!(
        vv,
        vec![
            Token::STRING_QUOTE,
            Token::STRING_PART("a$b".to_string()),
            Token::STRING_QUOTE,
        ]
    );
}

#[test]
fn unmatched_character_is_positioned() {
    let mut lexer = Lexer::new("x ~", Vec::with_capacity(10), 0);
    assert_eq!(lexer.yylex().unwrap(), Token::ID("x".to_string()));
    match lexer.next() {
        Some(Err(LexicalError::NotGood((lineno, s, s2, e)))) => {
            assert_eq!(lineno, 0);
            assert_eq!(s, 2);
            assert_eq!(s2, 2);
            assert_eq!(e, 2);
        }
        other => panic!("expected a lexical error, got {:?}", other),
    }
}

#[test]
fn integer_overflow_is_unmatched() {
    let mut lexer = Lexer::new("99999999999999999999999999", Vec::with_capacity(10), 0);
    assert_eq!(lexer.yylex(), Err(Error::Unmatch));
}

#[test]
fn next_produces_spans() {
    let mut lexer = Lexer::new("ab cd", Vec::with_capacity(10), 0);
    match lexer.next() {
        Some(Ok((lineno, tok, end))) => {
            assert_eq!(lineno, 0);
            assert_eq!(tok, Token::ID("ab".to_string()));
            assert_eq!(end, 2);
        }
        other => panic!("expected a token, got {:?}", other),
    }
    match lexer.next() {
        Some(Ok((lineno, tok, end))) => {
            assert_eq!(lineno, 0);
            assert_eq!(tok, Token::ID("cd".to_string()));
            assert_eq!(end, 5);
        }
        other => panic!("expected a token, got {:?}", other),
    }
    assert!(lexer.next().is_none());
}

#[test]
fn line_numbers_advance() {
    let mut lexer = Lexer::new("a\nb\nc", Vec::with_capacity(10), 0);
    match lexer.next() {
        Some(Ok((lineno, _, _))) => assert_eq!(lineno, 0),
        other => panic!("expected a token, got {:?}", other),
    }
    match lexer.next() {
        Some(Ok((lineno, _, _))) => assert_eq!(lineno, 1),
        other => panic!("expected a token, got {:?}", other),
    }
    match lexer.next() {
        Some(Ok((lineno, _, _))) => assert_eq!(lineno, 2),
        other => panic!("expected a token, got {:?}", other),
    }
}

#[test]
fn dynamic_attr_braces_balance() {
    // ${ ... } inside an attribute set, outside any string
    let mut lexer = Lexer::new(r#"{ ${xx} = 2; }"#, Vec::with_capacity(10), 0);
    let vv = _collect(&mut lexer, false);
    assert_eq!(
        vv,
        vec![
            Token::OPEN_CURLY,
            Token::DOLLAR_CURLY,
            Token::ID("xx".to_string()),
            Token::CLOSE_CURLY,
            Token::ASSIGN,
            Token::INT(2),
            Token::SEMICOLON,
            Token::CLOSE_CURLY,
        ]
    );
}

#[test]
fn nested_interpolation_two_levels() {
    let mut lexer = Lexer::new(r#""a${"b${1}c"}d""#, Vec::with_capacity(10), 0);
    let vv = _collect(&mut lexer, false);
    assert_eq!(
        vv,
        vec![
            Token::STRING_QUOTE,
            Token::STRING_PART("a".to_string()),
            Token::DOLLAR_CURLY,
            Token::STRING_QUOTE,
            Token::STRING_PART("b".to_string()),
            Token::DOLLAR_CURLY,
            Token::INT(1),
            Token::CLOSE_CURLY,
            Token::STRING_PART("c".to_string()),
            Token::STRING_QUOTE,
            Token::CLOSE_CURLY,
            Token::STRING_PART("d".to_string()),
            Token::STRING_QUOTE,
        ]
    );
}
