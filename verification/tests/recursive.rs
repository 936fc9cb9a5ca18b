use coffeeql_parser::error::ParseError;
use coffeeql_parser::recursive::RecursiveParser;
use coffeeql_parser::ast::Statement;
use coffeeql_parser::token::{CollectionKind, Token};

/// Build a token stream by hand, ending in `Eof`.
fn make_tokens(tokens: Vec<Token>) -> Vec<Token> {
    let mut t = tokens;
    t.push(Token::Eof);
    t
}

#[test]
fn parse_simple_query() {
    // users[].where(age > 18).give(name).cup(10)
    let tokens = make_tokens(vec![
        Token::Collection { name: "users".into(), kind: CollectionKind::Structured },
        Token::Dot,
        Token::Where,
        Token::LParen,
        Token::Identifier("age".into()),
        Token::Gt,
        Token::Int(18),
        Token::RParen,
        Token::Dot,
        Token::Give,
        Token::LParen,
        Token::Identifier("name".into()),
        Token::RParen,
        Token::Dot,
        Token::Cup,
        Token::LParen,
        Token::Int(10),
        Token::RParen,
    ]);
    let stmts = RecursiveParser::new(tokens).parse().unwrap();
    assert_eq!(stmts.len(), 1);
    assert!(matches!(&stmts[0], Statement::Query(_)));
}

#[test]
fn parse_pour_object() {
    // users[].pour({ name: "Rahul", age: 25 })
    let tokens = make_tokens(vec![
        Token::Collection { name: "users".into(), kind: CollectionKind::Structured },
        Token::Dot,
        Token::Pour,
        Token::LParen,
        Token::LBrace,
        Token::Identifier("name".into()),
        Token::Colon,
        Token::Text("Rahul".into()),
        Token::Comma,
        Token::Identifier("age".into()),
        Token::Colon,
        Token::Int(25),
        Token::RBrace,
        Token::RParen,
    ]);
    let stmts = RecursiveParser::new(tokens).parse().unwrap();
    assert!(matches!(&stmts[0], Statement::Query(_)));
}

#[test]
fn parse_menu() {
    // menu()
    let tokens = make_tokens(vec![Token::Menu, Token::LParen, Token::RParen]);
    let stmts = RecursiveParser::new(tokens).parse().unwrap();
    assert!(matches!(&stmts[0], Statement::Menu(_)));
}

#[test]
fn parse_wrong_chain_order_errors() {
    // sort is NOT valid from Start — only valid AfterWhere or AfterGive
    let tokens = make_tokens(vec![
        Token::Collection { name: "users".into(), kind: CollectionKind::Structured },
        Token::Dot,
        Token::Sort,
        Token::LParen,
        Token::Identifier("name".into()),
        Token::Comma,
        Token::Asc,
        Token::RParen,
    ]);
    let result = RecursiveParser::new(tokens).parse();
    assert!(result.is_err());
    assert!(matches!(result.unwrap_err(), ParseError::WrongChainOrder { .. }));
}
