use coffeeql_parser::ast::{AggFunc, BinaryOp, ChainOp, Expression, FieldExpr, Statement};
use coffeeql_parser::error::ParseError;
use coffeeql_parser::parser::Parser;
use coffeeql_parser::pratt::{join_with_dots, Precedence, PrattParser};
use coffeeql_parser::recursive::{permits, ChainMethod, ChainState, RecursiveParser};
use coffeeql_parser::token::{
    str_equal, CollectionKind, Constraint, DataType, Distance, DistanceUnit, Duration,
    DurationUnit, Number, SortDir, Symbol, Token,
};

fn users() -> Token {
    Token::Collection { name: "users".into(), kind: CollectionKind::Structured }
}

fn ident(s: &str) -> Token {
    Token::Identifier(s.into())
}

fn parse(mut tokens: Vec<Token>) -> Result<Vec<Statement>, ParseError> {
    tokens.push(Token::Eof);
    RecursiveParser::new(tokens).parse()
}

fn expr(tokens: &[Token]) -> Result<Expression, ParseError> {
    PrattParser::new(tokens).parse_expression(0)
}

fn only_query(stmts: &[Statement]) -> &coffeeql_parser::ast::QueryNode {
    assert_eq!(stmts.len(), 1);
    match &stmts[0] {
        Statement::Query(q) => q,
        other => panic!("expected a query, got {:?}", other),
    }
}

#[test]
fn readme_example_query() {
    // users[].where(plan = "pro").cup(10)
    let stmts = parse(vec![
        users(),
        Token::Dot,
        Token::Where,
        Token::LParen,
        ident("plan"),
        Token::Eq,
        Token::Text("pro".into()),
        Token::RParen,
        Token::Dot,
        Token::Cup,
        Token::LParen,
        Token::Int(10),
        Token::RParen,
    ])
    .unwrap();
    let q = only_query(&stmts);
    assert_eq!(q.collection, "users");
    assert_eq!(q.kind, CollectionKind::Structured);
    assert_eq!(q.chain.len(), 2);
    match &q.chain[0] {
        ChainOp::Where(w) => match &w.condition {
            Expression::Binary { left, op, right } => {
                assert!(matches!(&**left, Expression::Field(f) if f == "plan"));
                assert_eq!(*op, BinaryOp::Eq);
                assert!(matches!(&**right, Expression::Text(t) if t == "pro"));
            }
            other => panic!("unexpected condition {:?}", other),
        },
        other => panic!("unexpected op {:?}", other),
    }
    assert!(matches!(&q.chain[1], ChainOp::Cup(c) if c.limit == 10));
}

#[test]
fn second_where_is_refused_with_chain_order_error() {
    // users[].where(a = 1).where(b = 2)
    let err = parse(vec![
        users(),
        Token::Dot,
        Token::Where,
        Token::LParen,
        ident("a"),
        Token::Eq,
        Token::Int(1),
        Token::RParen,
        Token::Dot,
        Token::Where,
        Token::LParen,
        ident("b"),
        Token::Eq,
        Token::Int(2),
        Token::RParen,
    ])
    .unwrap_err();
    match err {
        ParseError::WrongChainOrder { found, after, hint } => {
            assert_eq!(found, "where");
            assert_eq!(after, "AfterWhere");
            assert_eq!(hint, ".where() is not valid after AfterWhere");
        }
        other => panic!("unexpected error {:?}", other),
    }
}

#[test]
fn refill_only_after_where() {
    // users[].refill({ a: 1 })
    let err = parse(vec![
        users(),
        Token::Dot,
        Token::Refill,
        Token::LParen,
        Token::LBrace,
        ident("a"),
        Token::Colon,
        Token::Int(1),
        Token::RBrace,
        Token::RParen,
    ])
    .unwrap_err();
    assert!(matches!(err, ParseError::WrongChainOrder { ref found, ref after, .. } if found == "refill" && after == "Start"));
}

#[test]
fn full_chain_in_order() {
    // users[].where(age > 18).give(name).sort(name, DESC).cup(5)
    let stmts = parse(vec![
        users(),
        Token::Dot,
        Token::Where,
        Token::LParen,
        ident("age"),
        Token::Gt,
        Token::Int(18),
        Token::RParen,
        Token::Dot,
        Token::Give,
        Token::LParen,
        ident("name"),
        Token::RParen,
        Token::Dot,
        Token::Sort,
        Token::LParen,
        ident("name"),
        Token::Comma,
        Token::Desc,
        Token::RParen,
        Token::Dot,
        Token::Cup,
        Token::LParen,
        Token::Int(5),
        Token::RParen,
    ])
    .unwrap();
    let q = only_query(&stmts);
    assert_eq!(q.chain.len(), 4);
    assert!(matches!(&q.chain[2], ChainOp::Sort(s) if s.field == "name" && s.direction == SortDir::Desc));
}

#[test]
fn nothing_follows_cup() {
    // users[].cup(5).give(name): the chain ends at cup, the dot is then no statement
    let err = parse(vec![
        users(),
        Token::Dot,
        Token::Cup,
        Token::LParen,
        Token::Int(5),
        Token::RParen,
        Token::Dot,
        Token::Give,
        Token::LParen,
        ident("name"),
        Token::RParen,
    ])
    .unwrap_err();
    match err {
        ParseError::UnexpectedToken { expected, found } => {
            assert_eq!(expected, "query, shot, grind, or menu");
            assert_eq!(found, "Dot");
        }
        other => panic!("unexpected error {:?}", other),
    }
}

#[test]
fn spill_ends_the_chain() {
    // users[].spill() users[]
    let stmts = parse(vec![
        users(),
        Token::Dot,
        Token::Spill,
        Token::LParen,
        Token::RParen,
        users(),
    ])
    .unwrap();
    assert_eq!(stmts.len(), 2);
    assert!(matches!(&stmts[0], Statement::Query(q) if matches!(q.chain[0], ChainOp::Spill)));
}

#[test]
fn cup_limit_must_be_positive() {
    let err = parse(vec![users(), Token::Dot, Token::Cup, Token::LParen, Token::Int(0), Token::RParen])
        .unwrap_err();
    assert!(matches!(err, ParseError::InvalidCupLimit { ref got } if got == "Int(0)"));
    let err = parse(vec![users(), Token::Dot, Token::Cup, Token::LParen, ident("n"), Token::RParen])
        .unwrap_err();
    assert!(matches!(err, ParseError::InvalidCupLimit { ref got } if got == "Identifier(\"n\")"));
}

#[test]
fn sort_direction_must_be_asc_or_desc() {
    let err = parse(vec![
        users(),
        Token::Dot,
        Token::Where,
        Token::LParen,
        ident("a"),
        Token::RParen,
        Token::Dot,
        Token::Sort,
        Token::LParen,
        ident("name"),
        Token::Comma,
        ident("up"),
        Token::RParen,
    ])
    .unwrap_err();
    assert!(matches!(err, ParseError::InvalidSortDir { ref got } if got == "Identifier(\"up\")"));
}

#[test]
fn unknown_chain_method() {
    let err = parse(vec![users(), Token::Dot, Token::Menu]).unwrap_err();
    assert!(matches!(err, ParseError::UnknownChainMethod { ref method } if method == "Menu"));
}

#[test]
fn shot_block() {
    // shot { users[] orders{} }
    let stmts = parse(vec![
        Token::Shot,
        Token::LBrace,
        users(),
        Token::Collection { name: "orders".into(), kind: CollectionKind::Unstructured },
        Token::RBrace,
    ])
    .unwrap();
    match &stmts[0] {
        Statement::Shot(s) => {
            assert_eq!(s.queries.len(), 2);
            assert_eq!(s.queries[1].collection, "orders");
            assert_eq!(s.queries[1].kind, CollectionKind::Unstructured);
        }
        other => panic!("unexpected statement {:?}", other),
    }
}

#[test]
fn empty_shot_is_refused() {
    let err = parse(vec![Token::Shot, Token::LBrace, Token::RBrace]).unwrap_err();
    assert!(matches!(err, ParseError::EmptyShot));
}

#[test]
fn unclosed_shot_is_refused() {
    let err = parse(vec![Token::Shot, Token::LBrace, users()]).unwrap_err();
    assert!(matches!(err, ParseError::UnexpectedEof { ref hint } if hint == "Close shot block with '}'"));
}

#[test]
fn grind_with_schema_and_flex() {
    // grind users[](id UUID PRIMARY, name TEXT REQUIRED UNIQUE) FLEX
    let stmts = parse(vec![
        Token::Grind,
        users(),
        Token::LParen,
        ident("id"),
        Token::DataType(DataType::Uuid),
        Token::Constraint(Constraint::PrimaryKey),
        Token::Comma,
        ident("name"),
        Token::DataType(DataType::Text),
        Token::Constraint(Constraint::Required),
        Token::Constraint(Constraint::Unique),
        Token::RParen,
        Token::Flex,
    ])
    .unwrap();
    match &stmts[0] {
        Statement::Grind(g) => {
            assert_eq!(g.collection, "users");
            assert!(g.flex);
            let schema = g.schema.as_ref().unwrap();
            assert_eq!(schema.len(), 2);
            assert_eq!(schema[1].name, "name");
            assert_eq!(schema[1].data_type, DataType::Text);
            assert_eq!(schema[1].constraints, vec![Constraint::Required, Constraint::Unique]);
        }
        other => panic!("unexpected statement {:?}", other),
    }
}

#[test]
fn grind_without_schema() {
    let stmts = parse(vec![Token::Grind, users()]).unwrap();
    assert!(matches!(&stmts[0], Statement::Grind(g) if g.schema.is_none() && !g.flex));
}

#[test]
fn grind_needs_a_data_type() {
    let err = parse(vec![Token::Grind, users(), Token::LParen, ident("id"), Token::RParen]).unwrap_err();
    assert!(matches!(err, ParseError::UnexpectedToken { ref expected, ref found }
        if expected == "data type (UUID, TEXT, INT, FLOAT, BOOL, DATETIME, GEOPOINT, VECTOR)" && found == "RParen"));
}

#[test]
fn menu_with_collection() {
    let stmts = parse(vec![Token::Menu, Token::LParen, users(), Token::RParen]).unwrap();
    match &stmts[0] {
        Statement::Menu(m) => {
            let (name, kind) = m.collection.as_ref().unwrap();
            assert_eq!(name, "users");
            assert_eq!(*kind, CollectionKind::Structured);
        }
        other => panic!("unexpected statement {:?}", other),
    }
}

#[test]
fn menu_missing_paren() {
    let err = parse(vec![Token::Menu, Token::LParen, users()]).unwrap_err();
    assert!(matches!(err, ParseError::UnexpectedToken { ref expected, ref found }
        if expected == "RParen" && found == "Eof"));
}

#[test]
fn statement_must_start_with_keyword_or_collection() {
    let err = parse(vec![Token::Int(3)]).unwrap_err();
    assert!(matches!(err, ParseError::UnexpectedToken { ref expected, ref found }
        if expected == "query, shot, grind, or menu" && found == "Int(3)"));
}

#[test]
fn mix_accepts_lowercase_on() {
    // users[].mix(orders[] on users[].id = orders[].user_id)
    let orders = || Token::Collection { name: "orders".into(), kind: CollectionKind::Structured };
    let stmts = parse(vec![
        users(),
        Token::Dot,
        Token::Mix,
        Token::LParen,
        orders(),
        ident("on"),
        users(),
        Token::Dot,
        ident("id"),
        Token::Eq,
        orders(),
        Token::Dot,
        ident("user_id"),
        Token::RParen,
    ])
    .unwrap();
    let q = only_query(&stmts);
    match &q.chain[0] {
        ChainOp::Mix(m) => {
            assert_eq!(m.collection, "orders");
            assert_eq!(m.left_field, "users.id");
            assert_eq!(m.right_field, "orders.user_id");
        }
        other => panic!("unexpected op {:?}", other),
    }
}

#[test]
fn mix_refuses_other_word() {
    let orders = Token::Collection { name: "orders".into(), kind: CollectionKind::Structured };
    let err = parse(vec![users(), Token::Dot, Token::Mix, Token::LParen, orders, ident("of")]).unwrap_err();
    assert!(matches!(err, ParseError::UnexpectedToken { ref expected, ref found }
        if expected == "ON" && found == "Identifier(\"of\")"));
}

#[test]
fn give_field_forms() {
    // users[].give(*, COUNT() as total, SUM(price) as s, specs.color, name)
    let stmts = parse(vec![
        users(),
        Token::Dot,
        Token::Give,
        Token::LParen,
        Token::Wildcard,
        Token::Comma,
        Token::FnCount,
        Token::LParen,
        Token::RParen,
        Token::As,
        ident("total"),
        Token::Comma,
        Token::FnSum,
        Token::LParen,
        ident("price"),
        Token::RParen,
        Token::As,
        ident("s"),
        Token::Comma,
        ident("specs"),
        Token::Dot,
        ident("color"),
        Token::Comma,
        ident("name"),
        Token::RParen,
    ])
    .unwrap();
    let q = only_query(&stmts);
    match &q.chain[0] {
        ChainOp::Give(g) => {
            assert_eq!(g.fields.len(), 5);
            assert!(matches!(g.fields[0], FieldExpr::Wildcard));
            assert!(matches!(&g.fields[1], FieldExpr::Aggregate { func: AggFunc::Count, field: None, alias } if alias == "total"));
            assert!(matches!(&g.fields[2], FieldExpr::Aggregate { func: AggFunc::Sum, field: Some(f), alias } if f == "price" && alias == "s"));
            assert!(matches!(&g.fields[3], FieldExpr::Nested(v) if v == &vec!["specs".to_string(), "color".to_string()]));
            assert!(matches!(&g.fields[4], FieldExpr::Simple(n) if n == "name"));
        }
        other => panic!("unexpected op {:?}", other),
    }
}

#[test]
fn pour_nested_values() {
    // users[].pour({ "tags": ["a", 1], meta: { k: true }, id: uuid(), at: now(), n: null, x: 2.5 })
    let stmts = parse(vec![
        users(),
        Token::Dot,
        Token::Pour,
        Token::LParen,
        Token::LBrace,
        Token::Text("tags".into()),
        Token::Colon,
        Token::LBracket,
        Token::Text("a".into()),
        Token::Comma,
        Token::Int(1),
        Token::RBracket,
        Token::Comma,
        ident("meta"),
        Token::Colon,
        Token::LBrace,
        ident("k"),
        Token::Colon,
        Token::Bool(true),
        Token::RBrace,
        Token::Comma,
        ident("id"),
        Token::Colon,
        Token::FnUuid,
        Token::LParen,
        Token::RParen,
        Token::Comma,
        ident("at"),
        Token::Colon,
        Token::FnNow,
        Token::LParen,
        Token::RParen,
        Token::Comma,
        ident("n"),
        Token::Colon,
        Token::Null,
        Token::Comma,
        ident("x"),
        Token::Colon,
        Token::Float(2.5f64.to_bits()),
        Token::RBrace,
        Token::RParen,
    ])
    .unwrap();
    let q = only_query(&stmts);
    match &q.chain[0] {
        ChainOp::Pour(p) => {
            let f = &p.data.fields;
            assert_eq!(f.len(), 6);
            assert_eq!(f[0].0, "tags");
            assert!(matches!(&f[0].1, Expression::FnCall { name, args } if name == "__array__" && args.len() == 2));
            assert!(matches!(&f[1].1, Expression::FnCall { name, args } if name == "__object__"
                && args.len() == 1 && matches!(args[0], Expression::Bool(true))));
            assert!(matches!(&f[2].1, Expression::FnCall { name, args } if name == "uuid" && args.is_empty()));
            assert!(matches!(&f[3].1, Expression::FnCall { name, .. } if name == "now"));
            assert!(matches!(f[4].1, Expression::Null));
            assert!(matches!(f[5].1, Expression::Float(b) if f64::from_bits(b) == 2.5));
        }
        other => panic!("unexpected op {:?}", other),
    }
}

#[test]
fn object_value_falls_back_to_expression() {
    // users[].pour({ a: b = 1, c: 2 })
    let stmts = parse(vec![
        users(),
        Token::Dot,
        Token::Pour,
        Token::LParen,
        Token::LBrace,
        ident("a"),
        Token::Colon,
        ident("b"),
        Token::Eq,
        Token::Int(1),
        Token::Comma,
        ident("c"),
        Token::Colon,
        Token::Int(2),
        Token::RBrace,
        Token::RParen,
    ])
    .unwrap();
    let q = only_query(&stmts);
    match &q.chain[0] {
        ChainOp::Pour(p) => {
            assert_eq!(p.data.fields.len(), 2);
            assert!(matches!(&p.data.fields[0].1, Expression::Binary { op: BinaryOp::Eq, .. }));
        }
        other => panic!("unexpected op {:?}", other),
    }
}

#[test]
fn precedence_comma_over_pipe() {
    // a = 1, b = 2 | c = 3  ->  Or[And[a=1, b=2], c=3]
    let toks = [
        ident("a"),
        Token::Eq,
        Token::Int(1),
        Token::Comma,
        ident("b"),
        Token::Eq,
        Token::Int(2),
        Token::Pipe,
        ident("c"),
        Token::Eq,
        Token::Int(3),
    ];
    match expr(&toks).unwrap() {
        Expression::Or(parts) => {
            assert_eq!(parts.len(), 2);
            assert!(matches!(&parts[0], Expression::And(a) if a.len() == 2));
            assert!(matches!(&parts[1], Expression::Binary { op: BinaryOp::Eq, .. }));
        }
        other => panic!("unexpected {:?}", other),
    }
}

#[test]
fn commas_build_one_flat_and() {
    let toks = [ident("a"), Token::Comma, ident("b"), Token::Comma, ident("c")];
    match expr(&toks).unwrap() {
        Expression::And(parts) => {
            assert_eq!(parts.len(), 3);
            assert!(parts.iter().all(|p| matches!(p, Expression::Field(_))));
        }
        other => panic!("unexpected {:?}", other),
    }
    // A parenthesised And on the left is extended, not nested.
    let toks = [
        Token::LParen,
        ident("a"),
        Token::Comma,
        ident("b"),
        Token::RParen,
        Token::Comma,
        ident("c"),
    ];
    assert!(matches!(expr(&toks).unwrap(), Expression::And(parts) if parts.len() == 3));
}

#[test]
fn negation_binds_tightly() {
    // !active, b  ->  And[Not(active), b]
    let toks = [Token::Bang, ident("active"), Token::Comma, ident("b")];
    match expr(&toks).unwrap() {
        Expression::And(parts) => {
            assert!(matches!(&parts[0], Expression::Not(x) if matches!(&**x, Expression::Field(f) if f == "active")));
        }
        other => panic!("unexpected {:?}", other),
    }
}

#[test]
fn field_methods() {
    // location.near(12.5, 77, 5km)
    let toks = [
        ident("location"),
        Token::Dot,
        Token::MethodNear,
        Token::LParen,
        Token::Float(12.5f64.to_bits()),
        Token::Comma,
        Token::Int(77),
        Token::Comma,
        Token::Distance(Distance { value: Number::Int(5), unit: DistanceUnit::Kilometers }),
        Token::RParen,
    ];
    match expr(&toks).unwrap() {
        Expression::Near { field, lat, lon, distance } => {
            assert_eq!(field, "location");
            assert_eq!(lat, Number::Float(12.5f64.to_bits()));
            assert_eq!(lon, Number::Int(77));
            assert_eq!(distance.unit, DistanceUnit::Kilometers);
        }
        other => panic!("unexpected {:?}", other),
    }
    // embed.like("coffee") uses the default threshold 0.80
    let toks = [
        ident("embed"),
        Token::Dot,
        Token::MethodLike,
        Token::LParen,
        Token::Text("coffee".into()),
        Token::RParen,
    ];
    match expr(&toks).unwrap() {
        Expression::Like { query, threshold, .. } => {
            assert_eq!(query, "coffee");
            assert_eq!(threshold, Number::Float(0.80f64.to_bits()));
        }
        other => panic!("unexpected {:?}", other),
    }
    // embed.like("coffee").threshold(0.9)
    let toks = [
        ident("embed"),
        Token::Dot,
        Token::MethodLike,
        Token::LParen,
        Token::Text("coffee".into()),
        Token::RParen,
        Token::Dot,
        Token::MethodThreshold,
        Token::LParen,
        Token::Float(0.9f64.to_bits()),
        Token::RParen,
    ];
    assert!(matches!(expr(&toks).unwrap(), Expression::Like { threshold, .. } if threshold == Number::Float(0.9f64.to_bits())));
    // items.has("latte")
    let toks = [ident("items"), Token::Dot, Token::MethodHas, Token::LParen, Token::Text("latte".into()), Token::RParen];
    assert!(matches!(expr(&toks).unwrap(), Expression::Has { field, value } if field == "items" && matches!(&*value, Expression::Text(t) if t == "latte")));
    // time.last(7d)
    let toks = [
        ident("time"),
        Token::Dot,
        Token::MethodLast,
        Token::LParen,
        Token::Duration(Duration { amount: 7, unit: DurationUnit::Days }),
        Token::RParen,
    ];
    assert!(matches!(expr(&toks).unwrap(), Expression::Last { field, duration } if field == "time" && duration.amount == 7));
}

#[test]
fn near_needs_a_number() {
    let toks = [ident("loc"), Token::Dot, Token::MethodNear, Token::LParen, Token::Text("x".into())];
    let err = expr(&toks).unwrap_err();
    assert!(matches!(err, ParseError::UnexpectedToken { ref expected, ref found }
        if expected == "number" && found == "Text(\"x\")"));
}

#[test]
fn exists_joins_nested_path() {
    let toks = [ident("specs"), Token::Dot, ident("color"), Token::Exists];
    assert!(matches!(expr(&toks).unwrap(), Expression::Exists { field } if field == "specs.color"));
    let toks = [ident("email"), Token::Exists];
    assert!(matches!(expr(&toks).unwrap(), Expression::Exists { field } if field == "email"));
    let toks = [Token::Int(1), Token::Exists];
    assert!(matches!(expr(&toks).unwrap(), Expression::Exists { field } if field == "unknown"));
}

#[test]
fn collection_fields_in_expressions() {
    let toks = [users(), Token::Dot, ident("id")];
    assert!(matches!(expr(&toks).unwrap(), Expression::NestedField(v) if v == vec!["users".to_string(), "id".to_string()]));
}

#[test]
fn function_calls() {
    // COUNT(a, b): each argument is a full expression, so the comma joins
    // `a, b` into one And argument.
    let toks = [Token::FnCount, Token::LParen, ident("a"), Token::Comma, ident("b"), Token::RParen];
    assert!(matches!(expr(&toks).unwrap(), Expression::FnCall { name, args }
        if name == "COUNT" && args.len() == 1 && matches!(&args[0], Expression::And(a) if a.len() == 2)));
    // COUNT(a b): two arguments without a separator
    let toks = [Token::FnCount, Token::LParen, ident("a"), ident("b"), Token::RParen];
    assert!(matches!(expr(&toks).unwrap(), Expression::FnCall { args, .. } if args.len() == 2));
    let toks = [Token::FnToday, Token::LParen, Token::RParen];
    assert!(matches!(expr(&toks).unwrap(), Expression::FnCall { name, args } if name == "today" && args.is_empty()));
}

#[test]
fn pratt_reports_position() {
    let toks = [ident("a"), Token::Gt, Token::Int(1), Token::RParen, Token::Eof];
    let mut p = PrattParser::new(&toks);
    assert_eq!(p.position(), 0);
    let e = p.parse_expression(0).unwrap();
    assert!(matches!(e, Expression::Binary { op: BinaryOp::Gt, .. }));
    assert_eq!(p.position(), 3);
    let mut q = PrattParser::starting_at(&toks, 2);
    assert!(matches!(q.parse_expression(0).unwrap(), Expression::Int(1)));
    assert_eq!(q.position(), 3);
}

#[test]
fn pratt_error_on_missing_operand() {
    let toks = [Token::RParen];
    let err = expr(&toks).unwrap_err();
    assert!(matches!(err, ParseError::UnexpectedToken { ref expected, ref found }
        if expected == "expression" && found == "RParen"));
}

#[test]
fn unclosed_group_reports_expected_rparen() {
    let toks = [Token::LParen, ident("a")];
    let err = expr(&toks).unwrap_err();
    assert!(matches!(err, ParseError::UnexpectedToken { ref expected, ref found }
        if expected == "RParen" && found == "Eof"));
}

#[test]
fn parser_front_door_is_repeatable() {
    let tokens = vec![Token::Menu, Token::LParen, Token::RParen, Token::Eof];
    let parser = Parser::new(tokens);
    let a = parser.parse().unwrap();
    let b = parser.parse().unwrap();
    assert_eq!(a.len(), 1);
    assert_eq!(b.len(), 1);
}

#[test]
fn empty_stream_has_no_statements() {
    assert!(parse(vec![]).unwrap().is_empty());
    assert!(RecursiveParser::new(vec![]).parse().unwrap().is_empty());
}

#[test]
fn precedence_levels() {
    assert_eq!(Precedence::Lowest.level(), 0);
    assert_eq!(Precedence::Or.level(), 1);
    assert_eq!(Precedence::And.level(), 2);
    assert_eq!(Precedence::Comparison.level(), 3);
    assert_eq!(Precedence::Unary.level(), 4);
    assert_eq!(Precedence::Call.level(), 5);
}

#[test]
fn chain_permission_table() {
    assert!(permits(ChainState::Start, ChainMethod::Where));
    assert!(!permits(ChainState::Start, ChainMethod::Sort));
    assert!(permits(ChainState::AfterGive, ChainMethod::Sort));
    assert!(permits(ChainState::AfterMix, ChainMethod::Where));
    assert!(!permits(ChainState::AfterSort, ChainMethod::Give));
    assert!(permits(ChainState::AfterWhere, ChainMethod::Refill));
    assert!(!permits(ChainState::AfterGive, ChainMethod::Refill));
}

#[test]
fn string_helpers() {
    assert_eq!(join_with_dots(&vec!["a".to_string(), "b".to_string(), "c".to_string()]), "a.b.c");
    assert_eq!(join_with_dots(&vec![]), "");
    assert!(str_equal("ON", "ON"));
    assert!(!str_equal("ON", "On"));
    assert!(matches!(Symbol::RParen.to_token(), Token::RParen));
}

#[test]
fn expressions_clone_deeply() {
    let toks = [ident("a"), Token::Comma, ident("b")];
    let e = expr(&toks).unwrap();
    let c = e.clone();
    assert_eq!(format!("{:?}", e), format!("{:?}", c));
}

#[test]
fn parse_stops_at_first_eof() {
    // menu() Eof 3: the parse reads up to the first Eof and no further
    let tokens = vec![Token::Menu, Token::LParen, Token::RParen, Token::Eof, Token::Int(3)];
    let stmts = RecursiveParser::new(tokens).parse().unwrap();
    assert_eq!(stmts.len(), 1);
}

#[test]
fn first_failing_statement_decides() {
    // menu() 3 menu(): the second statement fails, so the whole parse fails with its error
    let err = parse(vec![
        Token::Menu,
        Token::LParen,
        Token::RParen,
        Token::Int(3),
        Token::Menu,
        Token::LParen,
        Token::RParen,
    ])
    .unwrap_err();
    assert!(matches!(err, ParseError::UnexpectedToken { ref found, .. } if found == "Int(3)"));
}

#[test]
fn front_door_matches_fresh_parser() {
    let tokens = || {
        vec![
            users(),
            Token::Dot,
            Token::Give,
            Token::LParen,
            ident("name"),
            Token::RParen,
            Token::Menu,
            Token::LParen,
            Token::RParen,
            Token::Eof,
        ]
    };
    let a = Parser::new(tokens()).parse().unwrap();
    let b = RecursiveParser::new(tokens()).parse().unwrap();
    assert_eq!(format!("{:?}", a), format!("{:?}", b));
}

#[test]
fn chain_order_from_mix() {
    // users[].mix(orders[] ON a = b).where(x = 1).give(y): where and give may follow mix
    let orders = Token::Collection { name: "orders".into(), kind: CollectionKind::Structured };
    let stmts = parse(vec![
        users(),
        Token::Dot,
        Token::Mix,
        Token::LParen,
        orders,
        Token::On,
        ident("a"),
        Token::Eq,
        ident("b"),
        Token::RParen,
        Token::Dot,
        Token::Where,
        Token::LParen,
        ident("x"),
        Token::Eq,
        Token::Int(1),
        Token::RParen,
        Token::Dot,
        Token::Give,
        Token::LParen,
        ident("y"),
        Token::RParen,
    ])
    .unwrap();
    assert_eq!(only_query(&stmts).chain.len(), 3);
}

#[test]
fn give_cross_collection_fields() {
    // users[].give(users[].name, orders{}.total, users[])
    let stmts = parse(vec![
        users(),
        Token::Dot,
        Token::Give,
        Token::LParen,
        users(),
        Token::Dot,
        ident("name"),
        Token::Comma,
        Token::Collection { name: "orders".into(), kind: CollectionKind::Unstructured },
        Token::Dot,
        ident("total"),
        Token::Comma,
        users(),
        Token::RParen,
    ])
    .unwrap();
    let q = only_query(&stmts);
    match &q.chain[0] {
        ChainOp::Give(g) => {
            assert_eq!(g.fields.len(), 3);
            assert!(matches!(&g.fields[0], FieldExpr::CrossStructured(c, f) if c == "users" && f == "name"));
            assert!(matches!(&g.fields[1], FieldExpr::CrossUnstructured(c, f) if c == "orders" && f == "total"));
            assert!(matches!(&g.fields[2], FieldExpr::Simple(n) if n == "users"));
        }
        other => panic!("unexpected op {:?}", other),
    }
}

#[test]
fn concatenated_streams_parse_in_order() {
    // users[].cup(1)   then   menu(orders{})   then   orders{}.where(x = 2)
    let a = vec![users(), Token::Dot, Token::Cup, Token::LParen, Token::Int(1), Token::RParen];
    let orders = Token::Collection { name: "orders".into(), kind: CollectionKind::Unstructured };
    let b = vec![
        Token::Menu,
        Token::LParen,
        orders.clone(),
        Token::RParen,
        orders,
        Token::Dot,
        Token::Where,
        Token::LParen,
        ident("x"),
        Token::Eq,
        Token::Int(2),
        Token::RParen,
    ];
    let first = parse(a.clone()).unwrap();
    let second = parse(b.clone()).unwrap();
    let mut joined = a;
    joined.extend(b);
    let both = parse(joined).unwrap();
    assert_eq!(first.len(), 1);
    assert_eq!(second.len(), 2);
    let mut expected = first;
    expected.extend(second);
    assert_eq!(format!("{:?}", both), format!("{:?}", expected));
}
