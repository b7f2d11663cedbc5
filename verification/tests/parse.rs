use rever::{BinOp, Expr, Term, Token, Tokens, Type, Value};

fn toks(v: Vec<Token>) -> Tokens {
    Tokens::new(v)
}

fn num(n: i64) -> Expr {
    Expr::Term(Term::Lit(Value::Int(n)))
}

fn var(s: &str) -> Expr {
    Expr::Term(Term::Ident(s.to_string()))
}

fn ident(s: &str) -> Token {
    Token::Ident(s.to_string())
}

fn bin(op: BinOp, l: Expr, r: Expr) -> Expr {
    Expr::BinOp(op, Box::new(l), Box::new(r))
}

#[test]
fn tokens_peek_does_not_consume() {
    let mut t = toks(vec![Token::Plus, Token::Minus]);
    assert_eq!(t.len(), 2);
    assert_eq!(t.peek(), Some(&Token::Plus));
    assert_eq!(t.peek(), Some(&Token::Plus));
    assert_eq!(t.next(), Some(Token::Plus));
    assert_eq!(t.next(), Some(Token::Minus));
    assert_eq!(t.next(), None);
    assert_eq!(t.peek(), None);
    assert_eq!(t.len(), 0);
}

#[test]
fn product_binds_tighter_than_sum() {
    let mut t = toks(vec![Token::Number(1), Token::Plus, Token::Number(2), Token::Star, Token::Number(3)]);
    let e = Expr::parse(&mut t).unwrap();
    assert_eq!(e, bin(BinOp::Add, num(1), bin(BinOp::Mul, num(2), num(3))));
    assert_eq!(t.len(), 0);
}

#[test]
fn product_then_sum() {
    let mut t = toks(vec![Token::Number(1), Token::Star, Token::Number(2), Token::Minus, Token::Number(3)]);
    let e = Expr::parse(&mut t).unwrap();
    assert_eq!(e, bin(BinOp::Sub, bin(BinOp::Mul, num(1), num(2)), num(3)));
}

#[test]
fn sums_group_left() {
    let mut t = toks(vec![ident("a"), Token::Minus, ident("b"), Token::Minus, ident("c")]);
    let e = Expr::parse(&mut t).unwrap();
    assert_eq!(e, bin(BinOp::Sub, bin(BinOp::Sub, var("a"), var("b")), var("c")));
}

#[test]
fn colon_is_xor_and_or_is_additive() {
    let mut t = toks(vec![Token::True, Token::Colon, Token::False, Token::Or, Token::True]);
    let e = Expr::parse_expr(&mut t).unwrap();
    let tt = Expr::Term(Term::Lit(Value::Bool(true)));
    let ff = Expr::Term(Term::Lit(Value::Bool(false)));
    assert_eq!(e, bin(BinOp::Or, bin(BinOp::Xor, tt, ff), Expr::Term(Term::Lit(Value::Bool(true)))));
}

#[test]
fn powers_group_right() {
    let mut t = toks(vec![Token::Number(2), Token::Caret, Token::Number(3), Token::Caret, Token::Number(2)]);
    let e = Expr::parse(&mut t).unwrap();
    assert_eq!(e, bin(BinOp::Exp, num(2), bin(BinOp::Exp, num(3), num(2))));
}

#[test]
fn four_powers_group_right() {
    let mut t = toks(vec![
        ident("a"), Token::Caret, ident("b"), Token::Caret, ident("c"), Token::Caret, ident("d"),
    ]);
    let e = Expr::parse_exp(&mut t).unwrap();
    assert_eq!(
        e,
        bin(BinOp::Exp, var("a"), bin(BinOp::Exp, var("b"), bin(BinOp::Exp, var("c"), var("d"))))
    );
}

#[test]
fn relations_are_weakest_and_group_left() {
    let mut t = toks(vec![
        ident("a"), Token::Lt, ident("b"), Token::Plus, Token::Number(1), Token::Eq, Token::True,
    ]);
    let e = Expr::parse_rel(&mut t).unwrap();
    assert_eq!(
        e,
        bin(
            BinOp::Eq,
            bin(BinOp::Lt, var("a"), bin(BinOp::Add, var("b"), num(1))),
            Expr::Term(Term::Lit(Value::Bool(true)))
        )
    );
}

#[test]
fn all_relational_tokens() {
    let cases = vec![
        (Token::Eq, BinOp::Eq),
        (Token::Neq, BinOp::Ne),
        (Token::Lt, BinOp::Lt),
        (Token::Gt, BinOp::Gt),
        (Token::Lte, BinOp::Le),
        (Token::Gte, BinOp::Ge),
    ];
    for (tok, op) in cases {
        let mut t = toks(vec![Token::Number(1), tok, Token::Number(2)]);
        assert_eq!(Expr::parse(&mut t).unwrap(), bin(op, num(1), num(2)));
    }
}

#[test]
fn all_multiplicative_tokens() {
    let cases = vec![
        (Token::Star, BinOp::Mul),
        (Token::FSlash, BinOp::Div),
        (Token::Mod, BinOp::Mod),
        (Token::And, BinOp::And),
    ];
    for (tok, op) in cases {
        let mut t = toks(vec![Token::Number(1), tok, Token::Number(2)]);
        assert_eq!(Expr::parse_term(&mut t).unwrap(), bin(op, num(1), num(2)));
    }
}

#[test]
fn parentheses_make_a_group() {
    let mut t = toks(vec![
        Token::LParen, Token::Number(1), Token::Plus, Token::Number(2), Token::RParen,
        Token::Star, Token::Number(3),
    ]);
    let e = Expr::parse(&mut t).unwrap();
    assert_eq!(
        e,
        bin(BinOp::Mul, Expr::Group(Box::new(bin(BinOp::Add, num(1), num(2)))), num(3))
    );
}

#[test]
fn missing_close_paren() {
    let mut t = toks(vec![Token::LParen, Token::Number(1), Token::Plus, Token::Number(2)]);
    assert_eq!(Expr::parse_atom(&mut t), Err("`)` after subexpression"));
    assert_eq!(t.len(), 0);
}

#[test]
fn if_expression() {
    let mut t = toks(vec![
        Token::If, ident("x"), Token::Lt, Token::Number(1), Token::Then, Token::Number(2),
        Token::Else, Token::Number(3),
    ]);
    let e = Expr::parse(&mut t).unwrap();
    assert_eq!(
        e,
        Expr::If(
            Box::new(bin(BinOp::Lt, var("x"), num(1))),
            Box::new(num(2)),
            Box::new(num(3))
        )
    );
}

#[test]
fn if_without_then() {
    let mut t = toks(vec![Token::If, ident("x"), Token::Number(2)]);
    assert_eq!(Expr::parse(&mut t), Err("`then` after `if` predicate"));
    assert_eq!(t.len(), 0);
}

#[test]
fn if_without_else() {
    let mut t = toks(vec![Token::If, Token::True, Token::Then, Token::Number(2), Token::Newline]);
    assert_eq!(Expr::parse(&mut t), Err("`else` in `if` expression"));
}

#[test]
fn let_expression_with_type() {
    let mut t = toks(vec![
        Token::Let, ident("x"), Token::Colon, Token::Int, Token::Eq, Token::Number(5),
        Token::Newline, ident("x"), Token::Plus, Token::Number(1),
    ]);
    let e = Expr::parse(&mut t).unwrap();
    assert_eq!(
        e,
        Expr::Let(
            "x".to_string(),
            Some(Type::Int),
            Box::new(num(5)),
            Box::new(bin(BinOp::Add, var("x"), num(1)))
        )
    );
}

#[test]
fn let_expression_without_type() {
    let mut t = toks(vec![
        Token::Let, ident("y"), Token::Eq, Token::True, Token::Newline, ident("y"),
    ]);
    let e = Expr::parse(&mut t).unwrap();
    assert_eq!(
        e,
        Expr::Let(
            "y".to_string(),
            None,
            Box::new(Expr::Term(Term::Lit(Value::Bool(true)))),
            Box::new(var("y"))
        )
    );
}

#[test]
fn let_errors() {
    let mut t = toks(vec![Token::Let, Token::Number(1)]);
    assert_eq!(Expr::parse(&mut t), Err("name for let-binding"));

    let mut t = toks(vec![Token::Let, ident("x"), Token::Number(1)]);
    assert_eq!(Expr::parse(&mut t), Err("`=` after let-binding name"));

    let mut t = toks(vec![Token::Let, ident("x"), Token::Eq, Token::Number(1), ident("x")]);
    assert_eq!(Expr::parse(&mut t), Err("`in` after `let` binding"));

    let mut t = toks(vec![Token::Let, ident("x"), Token::Colon, Token::Plus, Token::Eq]);
    assert_eq!(Expr::parse(&mut t), Err("type"));
    // the bad type token is taken, the `=` is left
    assert_eq!(t.len(), 1);
}

#[test]
fn type_names() {
    let mut t = toks(vec![Token::Unit, Token::Bool, Token::Int, Token::UInt, Token::Plus]);
    assert_eq!(Type::parse(&mut t), Ok(Type::Unit));
    assert_eq!(Type::parse(&mut t), Ok(Type::Bool));
    assert_eq!(Type::parse(&mut t), Ok(Type::Int));
    assert_eq!(Type::parse(&mut t), Ok(Type::UInt));
    assert_eq!(Type::parse(&mut t), Err("type"));
    assert_eq!(Type::parse(&mut t), Err("type"));
}

#[test]
fn terms() {
    let mut t = toks(vec![Token::Number(-4), Token::True, Token::False, ident("z"), Token::Then]);
    assert_eq!(Term::parse(&mut t), Ok(Term::Lit(Value::Int(-4))));
    assert_eq!(Term::parse(&mut t), Ok(Term::Lit(Value::Bool(true))));
    assert_eq!(Term::parse(&mut t), Ok(Term::Lit(Value::Bool(false))));
    assert_eq!(Term::parse(&mut t), Ok(Term::Ident("z".to_string())));
    assert_eq!(Term::parse(&mut t), Err("term"));
    assert_eq!(t.len(), 0);
}

#[test]
fn empty_input_is_a_term_error() {
    let mut t = toks(vec![]);
    assert_eq!(Expr::parse(&mut t), Err("term"));
}

#[test]
fn operator_without_right_operand() {
    let mut t = toks(vec![Token::Number(1), Token::Plus]);
    assert_eq!(Expr::parse(&mut t), Err("term"));
}

#[test]
fn parsing_stops_before_unexpected_token() {
    let mut t = toks(vec![Token::Number(1), Token::Plus, Token::Number(2), Token::RParen, Token::Number(9)]);
    assert_eq!(Expr::parse(&mut t), Ok(bin(BinOp::Add, num(1), num(2))));
    assert_eq!(t.len(), 2);
    assert_eq!(t.next(), Some(Token::RParen));
}

#[test]
fn expr_from_term() {
    let e: Expr = Expr::from(Term::Lit(Value::Nil));
    assert_eq!(e, Expr::Term(Term::Lit(Value::Nil)));
}

#[test]
fn not_is_unary() {
    let mut t = toks(vec![Token::Not, ident("a")]);
    assert_eq!(Expr::parse_exp(&mut t).unwrap(), Expr::Not(Box::new(var("a"))));
    assert_eq!(t.len(), 0);
}

#[test]
fn not_binds_tighter_than_power_and_nests() {
    let mut t = toks(vec![Token::Not, Token::Not, ident("a"), Token::Caret, ident("b")]);
    assert_eq!(
        Expr::parse(&mut t).unwrap(),
        bin(BinOp::Exp, Expr::Not(Box::new(Expr::Not(Box::new(var("a"))))), var("b"))
    );
    let mut t = toks(vec![Token::Not]);
    assert_eq!(Expr::parse(&mut t), Err("term"));
}

#[test]
fn as_is_a_cast() {
    let mut t = toks(vec![ident("a"), Token::As, Token::Int]);
    assert_eq!(Expr::parse_term(&mut t).unwrap(), Expr::Cast(Box::new(var("a")), Type::Int));
    assert_eq!(t.len(), 0);
}

#[test]
fn as_applies_to_the_product_before_it() {
    let mut t = toks(vec![
        ident("a"), Token::Star, ident("b"), Token::As, Token::UInt, Token::Star, ident("c"),
        Token::Plus, Token::Number(1),
    ]);
    assert_eq!(
        Expr::parse(&mut t).unwrap(),
        bin(
            BinOp::Add,
            bin(
                BinOp::Mul,
                Expr::Cast(Box::new(bin(BinOp::Mul, var("a"), var("b"))), Type::UInt),
                var("c")
            ),
            num(1)
        )
    );
    let mut t = toks(vec![ident("a"), Token::As, Token::Plus]);
    assert_eq!(Expr::parse(&mut t), Err("type"));
}

#[test]
fn cast_and_not_evaluate() {
    let mut t = toks(vec![Token::Number(-1), Token::As, Token::UInt]);
    let e = Expr::parse(&mut t).unwrap();
    assert_eq!(e.eval(&vec![]).unwrap(), Value::Uint(u64::MAX));
    let mut t = toks(vec![Token::Not, Token::LParen, Token::Number(1), Token::Lt, Token::Number(2), Token::RParen]);
    let e = Expr::parse(&mut t).unwrap();
    assert_eq!(e.eval(&vec![]).unwrap(), Value::Bool(false));
}

#[test]
fn clone_is_equal() {
    let e = Expr::Let(
        "x".to_string(),
        Some(Type::Bool),
        Box::new(Expr::Not(Box::new(var("y")))),
        Box::new(Expr::If(Box::new(var("x")), Box::new(num(1)), Box::new(Expr::Cast(Box::new(num(2)), Type::Unit)))),
    );
    assert_eq!(e.clone(), e);
    let t = Term::Ident("q".to_string());
    assert_eq!(t.clone(), t);
}

#[test]
fn let_value_is_relational() {
    // `let x = if ...` is refused: the value of a `let` is a relational chain
    let mut t = toks(vec![
        Token::Let, ident("x"), Token::Eq, Token::If, Token::True, Token::Then, Token::Number(1),
        Token::Else, Token::Number(2), Token::Newline, ident("x"),
    ]);
    assert_eq!(Expr::parse(&mut t), Err("term"));
    // in parentheses it is a group
    let mut t = toks(vec![
        Token::Let, ident("x"), Token::Eq, Token::LParen, Token::If, Token::True, Token::Then,
        Token::Number(1), Token::Else, Token::Number(2), Token::RParen, Token::Newline, ident("x"),
    ]);
    match Expr::parse(&mut t).unwrap() {
        Expr::Let(_, _, v, _) => assert!(matches!(*v, Expr::Group(_))),
        other => panic!("expected a let, got {:?}", other),
    }
}

#[test]
fn long_chains_fold_left() {
    let mut t = toks(vec![
        ident("a"), Token::Lt, ident("b"), Token::Neq, ident("c"), Token::Eq, ident("d"),
        Token::Gte, ident("e"), Token::Then,
    ]);
    assert_eq!(
        Expr::parse_rel(&mut t).unwrap(),
        bin(
            BinOp::Ge,
            bin(BinOp::Eq, bin(BinOp::Ne, bin(BinOp::Lt, var("a"), var("b")), var("c")), var("d")),
            var("e")
        )
    );
    assert_eq!(t.next(), Some(Token::Then));

    let mut t = toks(vec![
        Token::Number(1), Token::Minus, Token::Number(2), Token::Plus, Token::Number(3),
        Token::Minus, Token::Number(4),
    ]);
    assert_eq!(
        Expr::parse_expr(&mut t).unwrap(),
        bin(BinOp::Sub, bin(BinOp::Add, bin(BinOp::Sub, num(1), num(2)), num(3)), num(4))
    );

    let mut t = toks(vec![
        Token::Number(8), Token::FSlash, Token::Number(4), Token::Mod, Token::Number(3),
        Token::Star, Token::Number(2),
    ]);
    assert_eq!(
        Expr::parse_term(&mut t).unwrap(),
        bin(BinOp::Mul, bin(BinOp::Mod, bin(BinOp::Div, num(8), num(4)), num(3)), num(2))
    );
}

#[test]
fn errors_inside_if_come_out_unchanged() {
    // an error in the test
    let mut t = toks(vec![Token::If, Token::Plus]);
    assert_eq!(Expr::parse(&mut t), Err("term"));
    // an error in the else branch
    let mut t = toks(vec![Token::If, Token::True, Token::Then, Token::Number(1), Token::Else, Token::RParen]);
    assert_eq!(Expr::parse(&mut t), Err("term"));
    // an error in the body of a let
    let mut t = toks(vec![Token::Let, ident("x"), Token::Eq, Token::Number(1), Token::Newline, Token::Let]);
    assert_eq!(Expr::parse(&mut t), Err("name for let-binding"));
}
