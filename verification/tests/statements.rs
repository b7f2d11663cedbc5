use rever::{BinOp, Decl, Expr, LValue, Statement, Term, Token, Tokens, Type, Value};

fn ident(s: &str) -> Token {
    Token::Ident(s.to_string())
}

fn num(n: i64) -> Expr {
    Expr::Term(Term::Lit(Value::Int(n)))
}

fn var(s: &str) -> Expr {
    Expr::Term(Term::Ident(s.to_string()))
}

fn place(s: &str) -> LValue {
    LValue { name: s.to_string(), indices: vec![] }
}

fn stmt(v: Vec<Token>) -> (Result<Statement, &'static str>, usize) {
    let mut t = Tokens::new(v);
    let r = Statement::parse(&mut t);
    (r, t.len())
}

#[test]
fn lvalue_with_indices() {
    let mut t = Tokens::new(vec![
        ident("a"), Token::LBracket, Token::Number(1), Token::RBracket, Token::LBracket, ident("i"),
        Token::Plus, Token::Number(2), Token::RBracket, Token::Swap,
    ]);
    let l = LValue::parse(&mut t).unwrap();
    assert_eq!(
        l,
        LValue {
            name: "a".to_string(),
            indices: vec![
                num(1),
                Expr::BinOp(BinOp::Add, Box::new(var("i")), Box::new(num(2)))
            ],
        }
    );
    assert_eq!(t.next(), Some(Token::Swap));
}

#[test]
fn lvalue_errors() {
    let mut t = Tokens::new(vec![Token::Number(1)]);
    assert_eq!(LValue::parse(&mut t), Err("name of variable"));
    let mut t = Tokens::new(vec![ident("a"), Token::LBracket, Token::Number(1), Token::Comma]);
    assert_eq!(LValue::parse(&mut t), Err("`]` after index"));
}

#[test]
fn skip() {
    assert_eq!(stmt(vec![Token::Skip, Token::Skip]), (Ok(Statement::Skip), 1));
}

#[test]
fn updates_and_swap() {
    assert_eq!(
        stmt(vec![ident("x"), Token::AddAssign, Token::Number(2), Token::Star, ident("y")]),
        (
            Ok(Statement::Add(
                place("x"),
                Expr::BinOp(BinOp::Mul, Box::new(num(2)), Box::new(var("y")))
            )),
            0
        )
    );
    assert_eq!(
        stmt(vec![ident("x"), Token::SubAssign, Token::Number(1)]),
        (Ok(Statement::Sub(place("x"), num(1))), 0)
    );
    assert_eq!(
        stmt(vec![ident("x"), Token::XorAssign, Token::Number(1)]),
        (Ok(Statement::Xor(place("x"), num(1))), 0)
    );
    assert_eq!(
        stmt(vec![ident("x"), Token::Swap, ident("y")]),
        (Ok(Statement::Swap(place("x"), place("y"))), 0)
    );
    assert_eq!(
        stmt(vec![ident("x"), Token::Eq, ident("y")]).0,
        Err("`<=>`, `+=`, `-=` or `^=` after variable")
    );
}

#[test]
fn local_and_delocal() {
    assert_eq!(
        stmt(vec![Token::Local, Token::Int, ident("n"), Token::Eq, Token::Number(3)]),
        (Ok(Statement::Local(Decl { typ: Type::Int, name: "n".to_string() }, num(3))), 0)
    );
    assert_eq!(
        stmt(vec![Token::Delocal, Token::Bool, ident("b"), Token::Eq, Token::True]),
        (
            Ok(Statement::Delocal(
                Decl { typ: Type::Bool, name: "b".to_string() },
                Expr::Term(Term::Lit(Value::Bool(true)))
            )),
            0
        )
    );
    assert_eq!(stmt(vec![Token::Local, Token::Int, Token::Number(3)]).0, Err("name in declaration"));
    assert_eq!(stmt(vec![Token::Local, Token::Int, ident("n"), Token::Number(3)]).0, Err("`=` after declaration"));
    assert_eq!(stmt(vec![Token::Local, ident("n")]).0, Err("type"));
}

#[test]
fn from_loop() {
    let (r, left) = stmt(vec![
        Token::From, ident("i"), Token::Eq, Token::Number(0),
        Token::Do, ident("i"), Token::AddAssign, Token::Number(1),
        Token::Loop, Token::Skip,
        Token::Until, ident("i"), Token::Eq, Token::Number(10),
    ]);
    assert_eq!(left, 0);
    assert_eq!(
        r,
        Ok(Statement::From(
            Expr::BinOp(BinOp::Eq, Box::new(var("i")), Box::new(num(0))),
            Some(vec![Statement::Add(place("i"), num(1))]),
            Some(vec![Statement::Skip]),
            Expr::BinOp(BinOp::Eq, Box::new(var("i")), Box::new(num(10)))
        ))
    );
}

#[test]
fn from_loop_without_bodies() {
    let (r, _) = stmt(vec![Token::From, Token::True, Token::Until, Token::True]);
    let t = Expr::Term(Term::Lit(Value::Bool(true)));
    assert_eq!(r, Ok(Statement::From(t, None, None, Expr::Term(Term::Lit(Value::Bool(true))))));
    assert_eq!(
        stmt(vec![Token::From, Token::True, Token::Do, Token::Skip]).0,
        Err("`until` in `from` loop")
    );
}

#[test]
fn if_statement() {
    let (r, left) = stmt(vec![
        Token::If, ident("x"), Token::Lt, Token::Number(1),
        Token::Then, ident("x"), Token::AddAssign, Token::Number(1), ident("y"), Token::SubAssign, Token::Number(1),
        Token::Else, Token::Skip,
        Token::Fi, ident("x"), Token::Lt, Token::Number(2),
        Token::Skip,
    ]);
    assert_eq!(left, 1);
    assert_eq!(
        r,
        Ok(Statement::If(
            Expr::BinOp(BinOp::Lt, Box::new(var("x")), Box::new(num(1))),
            vec![Statement::Add(place("x"), num(1)), Statement::Sub(place("y"), num(1))],
            Some(vec![Statement::Skip]),
            Expr::BinOp(BinOp::Lt, Box::new(var("x")), Box::new(num(2)))
        ))
    );
}

#[test]
fn if_statement_errors() {
    assert_eq!(stmt(vec![Token::If, Token::True, Token::Skip]).0, Err("`then` after `if` predicate"));
    assert_eq!(
        stmt(vec![Token::If, Token::True, Token::Then, Token::Skip, Token::True]).0,
        Err("`fi` after `if` statement")
    );
    // a block holds at least one statement
    assert_eq!(stmt(vec![Token::If, Token::True, Token::Then, Token::Fi, Token::True]).0, Err("statement"));
}

#[test]
fn nested_blocks() {
    let (r, left) = stmt(vec![
        Token::If, Token::True, Token::Then,
        Token::If, Token::False, Token::Then, Token::Skip, Token::Fi, Token::False,
        Token::Skip,
        Token::Fi, Token::True,
    ]);
    assert_eq!(left, 0);
    let tt = || Expr::Term(Term::Lit(Value::Bool(true)));
    let ff = || Expr::Term(Term::Lit(Value::Bool(false)));
    assert_eq!(
        r,
        Ok(Statement::If(
            tt(),
            vec![Statement::If(ff(), vec![Statement::Skip], None, ff()), Statement::Skip],
            None,
            tt()
        ))
    );
}

#[test]
fn calls() {
    assert_eq!(
        stmt(vec![Token::Call, ident("f"), Token::LParen, ident("a"), Token::Comma, Token::Number(2), Token::RParen]),
        (
            Ok(Statement::Call(
                "f".to_string(),
                vec![Term::Ident("a".to_string()), Term::Lit(Value::Int(2))]
            )),
            0
        )
    );
    assert_eq!(
        stmt(vec![Token::Uncall, ident("g"), Token::LParen, Token::RParen]),
        (Ok(Statement::Uncall("g".to_string(), vec![])), 0)
    );
    assert_eq!(stmt(vec![Token::Call, Token::LParen]).0, Err("name of procedure"));
    assert_eq!(stmt(vec![Token::Call, ident("f"), ident("a")]).0, Err("`(` before arguments"));
    assert_eq!(
        stmt(vec![Token::Call, ident("f"), Token::LParen, ident("a"), ident("b")]).0,
        Err("`)` after arguments")
    );
    assert_eq!(
        stmt(vec![Token::Call, ident("f"), Token::LParen, ident("a"), Token::Comma, Token::RParen]).0,
        Err("term")
    );
}

#[test]
fn built_ins() {
    assert_eq!(
        stmt(vec![Token::Print, Token::LParen, Token::Str("hi".to_string()), Token::RParen]),
        (Ok(Statement::Print("hi".to_string())), 0)
    );
    assert_eq!(
        stmt(vec![Token::Error, Token::LParen, Token::Str("bad".to_string()), Token::RParen]),
        (Ok(Statement::Error("bad".to_string())), 0)
    );
    assert_eq!(
        stmt(vec![
            Token::Printf, Token::LParen, Token::Str("%d %d".to_string()), Token::Comma, ident("x"),
            Token::Comma, Token::Number(4), Token::RParen,
        ]),
        (
            Ok(Statement::Printf(
                "%d %d".to_string(),
                vec![Term::Ident("x".to_string()), Term::Lit(Value::Int(4))]
            )),
            0
        )
    );
    assert_eq!(
        stmt(vec![Token::Show, Token::LParen, ident("x"), Token::RParen]),
        (Ok(Statement::Show(place("x"))), 0)
    );
    assert_eq!(
        stmt(vec![Token::Pop, Token::LParen, ident("x"), Token::Comma, ident("s"), Token::RParen]),
        (Ok(Statement::Pop(Term::Ident("x".to_string()), place("s"))), 0)
    );
    assert_eq!(
        stmt(vec![Token::Push, Token::LParen, Token::Number(1), Token::Comma, ident("s"), Token::RParen]),
        (Ok(Statement::Push(Term::Lit(Value::Int(1)), place("s"))), 0)
    );
    assert_eq!(stmt(vec![Token::Print, Token::LParen, ident("x")]).0, Err("string"));
    assert_eq!(stmt(vec![Token::Print, Token::Str("x".to_string())]).0, Err("`(` before string"));
    assert_eq!(
        stmt(vec![Token::Print, Token::LParen, Token::Str("x".to_string()), Token::Comma]).0,
        Err("`)` after string")
    );
    assert_eq!(
        stmt(vec![Token::Pop, Token::LParen, ident("x"), ident("s")]).0,
        Err("`,` between arguments")
    );
    assert_eq!(stmt(vec![Token::Show, Token::LParen, ident("x")]).0, Err("`)` after variable"));
}

#[test]
fn not_a_statement() {
    assert_eq!(stmt(vec![Token::Number(1)]), (Err("statement"), 0));
    assert_eq!(stmt(vec![]), (Err("statement"), 0));
}

#[test]
fn block_of_statements() {
    let mut t = Tokens::new(vec![Token::Skip, ident("x"), Token::AddAssign, Token::Number(1), Token::Fi]);
    let b = Statement::parse_block(&mut t).unwrap();
    assert_eq!(b, vec![Statement::Skip, Statement::Add(place("x"), num(1))]);
    assert_eq!(t.next(), Some(Token::Fi));
}
