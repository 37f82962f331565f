use sluice::lexer::{get_tokens, LexError};
use sluice::token::Token;

const FULL_PROG: &str = r"snippet fun ( a , b , c , x , y, ) {
                            static x = 0 ;
                            t1 = a >= b;
                            a = t1 ? x : a;
                            b = t1 ? y : b;
                            t2 = c >= d;
                            t3 = t2 and t1;
                            e = t2 ? m : 5;
                          }
                          snippet foo(a, b, c,) {
                            static x = 1;
                            x = 5;
                          }
                          (foo, fun) 
                          ";

#[test]
fn lexer_test_lexer_full_prog() {
    let tokens = get_tokens(FULL_PROG);
    println!("{:?}", tokens);
    assert!(tokens.is_ok());
}

#[test]
fn lexer_tests_test_lexer_full_prog() {
    let tokens = get_tokens(FULL_PROG).unwrap();
    println!("{:?}", tokens);
    assert_eq!(tokens[0], Token::Snippet);
    assert_eq!(tokens[1], Token::Identifier("fun".to_string()));
    assert_eq!(tokens[2], Token::ParenLeft);
    assert_eq!(tokens[tokens.len() - 1], Token::ParenRight);
}

#[test]
fn lexer_operators_prefer_two_characters() {
    let tokens = get_tokens("a->b==c!=d>=e<=f>g<h-i=j").unwrap();
    assert_eq!(
        tokens,
        vec![
            Token::Identifier("a".to_string()),
            Token::Arrow,
            Token::Identifier("b".to_string()),
            Token::Equal,
            Token::Identifier("c".to_string()),
            Token::NotEqual,
            Token::Identifier("d".to_string()),
            Token::GTEQOp,
            Token::Identifier("e".to_string()),
            Token::LTEQOp,
            Token::Identifier("f".to_string()),
            Token::GreaterThan,
            Token::Identifier("g".to_string()),
            Token::LessThan,
            Token::Identifier("h".to_string()),
            Token::Minus,
            Token::Identifier("i".to_string()),
            Token::Assign,
            Token::Identifier("j".to_string()),
        ]
    );
}

#[test]
fn lexer_keywords_and_values() {
    let tokens = get_tokens("input output const persistent transient snippet and or not bit packet global if else static 4294967295 12abc").unwrap();
    assert_eq!(
        tokens,
        vec![
            Token::Input,
            Token::Output,
            Token::Const,
            Token::Persistent,
            Token::Transient,
            Token::Snippet,
            Token::BooleanAnd,
            Token::BooleanOr,
            Token::BooleanNot,
            Token::Bit,
            Token::Packet,
            Token::Global,
            Token::If,
            Token::Else,
            Token::Static,
            Token::Value(4294967295),
            Token::Value(12),
            Token::Identifier("abc".to_string()),
        ]
    );
}

#[test]
fn lexer_punctuation() {
    let tokens = get_tokens("{}()[];,?:.@+*/%").unwrap();
    assert_eq!(
        tokens,
        vec![
            Token::BraceLeft,
            Token::BraceRight,
            Token::ParenLeft,
            Token::ParenRight,
            Token::SquareLeft,
            Token::SquareRight,
            Token::SemiColon,
            Token::Comma,
            Token::Cond,
            Token::Colon,
            Token::Dot,
            Token::Annotation,
            Token::Plus,
            Token::Mul,
            Token::Div,
            Token::Modulo,
        ]
    );
}

#[test]
fn lexer_empty_and_blank_input() {
    assert_eq!(get_tokens("").unwrap(), vec![]);
    assert_eq!(get_tokens(" \t\n\u{a0}\u{3000} ").unwrap(), vec![]);
}

#[test]
fn lexer_unrecognized_token() {
    assert_eq!(get_tokens("a = !b;"), Err(LexError::UnrecognizedToken(4)));
    assert_eq!(get_tokens("x # y"), Err(LexError::UnrecognizedToken(2)));
    assert_eq!(get_tokens("é"), Err(LexError::UnrecognizedToken(0)));
}

#[test]
fn lexer_value_out_of_range() {
    assert_eq!(get_tokens("x = 4294967296;"), Err(LexError::ValueOutOfRange(4)));
}
