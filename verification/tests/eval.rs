use rever::{BinOp, EvalError, Expr, Scope, Term, Type, Value};

fn lit(v: Value) -> Expr {
    Expr::Term(Term::Lit(v))
}

fn num(n: i64) -> Expr {
    lit(Value::Int(n))
}

fn boolean(b: bool) -> Expr {
    lit(Value::Bool(b))
}

fn var(s: &str) -> Expr {
    Expr::Term(Term::Ident(s.to_string()))
}

fn bin(op: BinOp, l: Expr, r: Expr) -> Expr {
    Expr::BinOp(op, Box::new(l), Box::new(r))
}

fn ev(e: &Expr) -> Value {
    e.eval(&Vec::new()).unwrap()
}

fn type_error(e: &Expr) -> &'static str {
    match e.eval(&Vec::new()) {
        Err(EvalError::TypeError(m)) => m,
        other => panic!("expected a type error, got {:?}", other),
    }
}

#[test]
fn arithmetic() {
    assert_eq!(ev(&bin(BinOp::Add, num(2), num(3))), Value::Int(5));
    assert_eq!(ev(&bin(BinOp::Sub, num(2), num(3))), Value::Int(-1));
    assert_eq!(ev(&bin(BinOp::Mul, num(-4), num(3))), Value::Int(-12));
    assert_eq!(ev(&bin(BinOp::Add, num(i64::MAX - 1), num(1))), Value::Int(i64::MAX));
}

#[test]
fn division_rounds_toward_zero() {
    assert_eq!(ev(&bin(BinOp::Div, num(7), num(2))), Value::Int(3));
    assert_eq!(ev(&bin(BinOp::Div, num(-7), num(2))), Value::Int(-3));
    assert_eq!(ev(&bin(BinOp::Div, num(7), num(-2))), Value::Int(-3));
    assert_eq!(ev(&bin(BinOp::Div, num(-7), num(-2))), Value::Int(3));
    assert_eq!(ev(&bin(BinOp::Div, num(i64::MIN), num(1))), Value::Int(i64::MIN));
}

#[test]
fn mod_takes_the_sign_of_the_divisor() {
    assert_eq!(ev(&bin(BinOp::Mod, num(7), num(3))), Value::Int(1));
    assert_eq!(ev(&bin(BinOp::Mod, num(-7), num(3))), Value::Int(2));
    assert_eq!(ev(&bin(BinOp::Mod, num(7), num(-3))), Value::Int(-2));
    assert_eq!(ev(&bin(BinOp::Mod, num(-7), num(-3))), Value::Int(-1));
    assert_eq!(ev(&bin(BinOp::Mod, num(-6), num(3))), Value::Int(0));
    assert_eq!(ev(&bin(BinOp::Mod, num(6), num(-3))), Value::Int(0));
    assert_eq!(ev(&bin(BinOp::Mod, num(i64::MIN), num(2))), Value::Int(0));
}

#[test]
fn powers() {
    assert_eq!(ev(&bin(BinOp::Exp, num(2), num(10))), Value::Int(1024));
    assert_eq!(ev(&bin(BinOp::Exp, num(-3), num(3))), Value::Int(-27));
    assert_eq!(ev(&bin(BinOp::Exp, num(5), num(0))), Value::Int(1));
    assert_eq!(ev(&bin(BinOp::Exp, num(0), num(0))), Value::Int(1));
    assert_eq!(ev(&bin(BinOp::Exp, num(0), num(7))), Value::Int(0));
    assert_eq!(ev(&bin(BinOp::Exp, num(-2), num(63))), Value::Int(i64::MIN));
    assert_eq!(ev(&bin(BinOp::Exp, num(2), num(62))), Value::Int(1 << 62));
    // the exponent is taken as a `u32`, as `e as u32` does
    assert_eq!(ev(&bin(BinOp::Exp, num(1), num(-1))), Value::Int(1));
    assert_eq!(ev(&bin(BinOp::Exp, num(-1), num(-1))), Value::Int(-1));
    assert_eq!(ev(&bin(BinOp::Exp, num(-1), num(-2))), Value::Int(1));
    assert_eq!(ev(&bin(BinOp::Exp, num(3), num(1 << 32))), Value::Int(1));
    assert_eq!(ev(&bin(BinOp::Exp, num(2), num((1 << 32) + 3))), Value::Int(8));
}

#[test]
fn booleans() {
    assert_eq!(ev(&bin(BinOp::And, boolean(true), boolean(false))), Value::Bool(false));
    assert_eq!(ev(&bin(BinOp::And, boolean(true), boolean(true))), Value::Bool(true));
    assert_eq!(ev(&bin(BinOp::Or, boolean(false), boolean(true))), Value::Bool(true));
    assert_eq!(ev(&bin(BinOp::Or, boolean(false), boolean(false))), Value::Bool(false));
    assert_eq!(ev(&bin(BinOp::Xor, boolean(true), boolean(true))), Value::Bool(false));
    assert_eq!(ev(&bin(BinOp::Xor, boolean(true), boolean(false))), Value::Bool(true));
    assert_eq!(ev(&Expr::Not(Box::new(boolean(true)))), Value::Bool(false));
    assert_eq!(ev(&Expr::Not(Box::new(boolean(false)))), Value::Bool(true));
}

#[test]
fn xor_on_integers_is_bitwise() {
    assert_eq!(ev(&bin(BinOp::Xor, num(0b1100), num(0b1010))), Value::Int(0b0110));
    assert_eq!(ev(&bin(BinOp::Xor, num(-1), num(5))), Value::Int(!5));
}

#[test]
fn comparisons() {
    assert_eq!(ev(&bin(BinOp::Lt, num(1), num(2))), Value::Bool(true));
    assert_eq!(ev(&bin(BinOp::Gt, num(1), num(2))), Value::Bool(false));
    assert_eq!(ev(&bin(BinOp::Le, num(2), num(2))), Value::Bool(true));
    assert_eq!(ev(&bin(BinOp::Ge, num(1), num(2))), Value::Bool(false));
    assert_eq!(ev(&bin(BinOp::Eq, num(2), num(2))), Value::Bool(true));
    assert_eq!(ev(&bin(BinOp::Ne, num(2), num(2))), Value::Bool(false));
}

#[test]
fn equality_across_kinds() {
    // `=` and `!=` accept any two values; different kinds are unequal
    assert_eq!(ev(&bin(BinOp::Eq, num(1), boolean(true))), Value::Bool(false));
    assert_eq!(ev(&bin(BinOp::Ne, num(1), boolean(true))), Value::Bool(true));
    assert_eq!(ev(&bin(BinOp::Eq, lit(Value::Nil), lit(Value::Nil))), Value::Bool(true));
    assert_eq!(ev(&bin(BinOp::Eq, lit(Value::Uint(1)), num(1))), Value::Bool(false));
}

#[test]
fn ne_is_not_eq() {
    let a = bin(BinOp::Eq, num(3), num(4));
    let b = bin(BinOp::Ne, num(3), num(4));
    assert_eq!(ev(&a), Value::Bool(false));
    assert_eq!(ev(&b), Value::Bool(true));
    let a = bin(BinOp::Eq, num(1), boolean(true));
    let b = bin(BinOp::Ne, num(1), boolean(true));
    assert_eq!(ev(&a), Value::Bool(false));
    assert_eq!(ev(&b), Value::Bool(true));
    // both fail alike
    assert_eq!(
        type_error(&bin(BinOp::Eq, bin(BinOp::Add, boolean(true), num(1)), num(1))),
        type_error(&bin(BinOp::Ne, bin(BinOp::Add, boolean(true), num(1)), num(1)))
    );
}

#[test]
fn type_errors() {
    assert_eq!(type_error(&bin(BinOp::Exp, boolean(true), num(1))), "tried to get power of non-integer values");
    assert_eq!(type_error(&bin(BinOp::Mul, num(1), boolean(true))), "tried multiplying non-integer values");
    assert_eq!(type_error(&bin(BinOp::Div, lit(Value::Uint(4)), num(2))), "tried dividing non-integer values");
    assert_eq!(type_error(&bin(BinOp::Mod, lit(Value::Nil), num(2))), "tried getting remainder of non-integer values");
    assert_eq!(type_error(&bin(BinOp::And, num(1), boolean(true))), "tried ANDing non-boolean values");
    assert_eq!(type_error(&bin(BinOp::Add, boolean(true), boolean(true))), "tried adding non-integer values");
    assert_eq!(type_error(&bin(BinOp::Sub, boolean(true), num(1))), "tried subtracting non-integer values");
    assert_eq!(type_error(&bin(BinOp::Or, num(0), num(1))), "tried ORing non-boolean values");
    assert_eq!(type_error(&bin(BinOp::Xor, num(0), boolean(true))), "tried XORing non-boolean or non-integer values");
    assert_eq!(type_error(&bin(BinOp::Lt, boolean(true), num(1))), "tried comparing non-integer values");
    assert_eq!(type_error(&bin(BinOp::Gt, boolean(true), num(1))), "tried comparing non-integer values");
    assert_eq!(type_error(&bin(BinOp::Le, boolean(true), num(1))), "tried comparing non-integer values");
    assert_eq!(type_error(&bin(BinOp::Ge, boolean(true), num(1))), "tried comparing non-integer values");
    assert_eq!(type_error(&Expr::Not(Box::new(num(1)))), "tried NOTting non-boolean value");
}

#[test]
fn left_error_comes_first() {
    let e = bin(
        BinOp::Add,
        bin(BinOp::And, num(1), num(2)),
        bin(BinOp::Or, num(1), num(2)),
    );
    assert_eq!(type_error(&e), "tried ANDing non-boolean values");
}

#[test]
fn if_takes_else_unless_test_is_true() {
    let e = Expr::If(Box::new(boolean(true)), Box::new(num(1)), Box::new(num(2)));
    assert_eq!(ev(&e), Value::Int(1));
    let e = Expr::If(Box::new(boolean(false)), Box::new(num(1)), Box::new(num(2)));
    assert_eq!(ev(&e), Value::Int(2));
    let e = Expr::If(Box::new(num(1)), Box::new(num(1)), Box::new(num(2)));
    assert_eq!(ev(&e), Value::Int(2));
    // only the branch taken is evaluated
    let e = Expr::If(Box::new(boolean(true)), Box::new(num(1)), Box::new(Expr::Not(Box::new(num(3)))));
    assert_eq!(ev(&e), Value::Int(1));
}

#[test]
fn groups_are_transparent() {
    let inner = bin(BinOp::Add, num(1), num(2));
    let group = Expr::Group(Box::new(bin(BinOp::Add, num(1), num(2))));
    assert_eq!(ev(&inner), ev(&group));
}

#[test]
fn variables_read_the_innermost_binding() {
    let scope: Scope = vec![
        ("x".to_string(), Value::Int(1)),
        ("y".to_string(), Value::Bool(true)),
        ("x".to_string(), Value::Int(2)),
    ];
    assert_eq!(var("x").eval(&scope).unwrap(), Value::Int(2));
    assert_eq!(var("y").eval(&scope).unwrap(), Value::Bool(true));
    assert_eq!(Term::Ident("x".to_string()).eval(&scope), Value::Int(2));
    assert_eq!(Term::Lit(Value::Uint(3)).eval(&scope), Value::Uint(3));
}

#[test]
fn let_binds_and_shadows() {
    let scope: Scope = vec![("x".to_string(), Value::Int(1)), ("y".to_string(), Value::Int(10))];
    let e = Expr::Let(
        "x".to_string(),
        Some(Type::Int),
        Box::new(num(5)),
        Box::new(bin(BinOp::Add, var("x"), var("y"))),
    );
    assert_eq!(e.eval(&scope).unwrap(), Value::Int(15));
    // the outer scope is untouched
    assert_eq!(var("x").eval(&scope).unwrap(), Value::Int(1));
    // the bound value is computed in the outer scope
    let e = Expr::Let(
        "x".to_string(),
        None,
        Box::new(bin(BinOp::Add, var("x"), num(1))),
        Box::new(var("x")),
    );
    assert_eq!(e.eval(&scope).unwrap(), Value::Int(2));
}

#[test]
fn let_value_error_is_returned() {
    let e = Expr::Let("x".to_string(), None, Box::new(Expr::Not(Box::new(num(1)))), Box::new(num(0)));
    assert_eq!(type_error(&e), "tried NOTting non-boolean value");
}

#[test]
fn casts() {
    let c = |e: Expr, t: Type| Expr::Cast(Box::new(e), t);
    assert_eq!(ev(&c(num(5), Type::Unit)), Value::Nil);
    assert_eq!(ev(&c(boolean(true), Type::Unit)), Value::Nil);
    assert_eq!(ev(&c(lit(Value::Uint(7)), Type::Int)), Value::Int(7));
    assert_eq!(ev(&c(lit(Value::Uint(u64::MAX)), Type::Int)), Value::Int(-1));
    assert_eq!(ev(&c(num(-1), Type::UInt)), Value::Uint(u64::MAX));
    assert_eq!(ev(&c(num(9), Type::UInt)), Value::Uint(9));
    // an error inside the cast comes out
    assert_eq!(type_error(&c(Expr::Not(Box::new(num(1))), Type::Unit)), "tried NOTting non-boolean value");
}
