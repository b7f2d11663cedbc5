//! Evaluation of expressions.

use vstd::prelude::*;
use vstd::arithmetic::power::pow;

use crate::arith::{
    div_i64, div_toward_zero, floor_mod, in_i64, lemma_floor_mod_unique, lemma_rem_toward_zero,
    pow_i64, rem_i64, rem_toward_zero,
};
use crate::expr::{bin, BinOp, Expr};
use crate::value::{
    lookup, scope_view, term_value, EvalError, EvalResult, Scope, Term, Type, Value,
};

verus! {

/// The outcome of an evaluation: `None` where Rust would panic (an arithmetic
/// overflow, a division by zero, an unsupported cast, a variable bound
/// nowhere), else the result.
pub type Outcome = Option<EvalResult<Value>>;

pub open spec fn fail(msg: &'static str) -> Outcome {
    Some(Err(EvalError::TypeError(msg)))
}

pub open spec fn int_result(x: int) -> Outcome {
    if in_i64(x) {
        Some(Ok(Value::Int(x as i64)))
    } else {
        None
    }
}

/// `l mod r` as the evaluator defines it: `(l % r + r) % r` with Rust's `%`,
/// which for `r > 0` lies in `0..r`. Rust's `%` overflows on `i64::MIN % -1`.
pub open spec fn mod_spec(l: int, r: int) -> Outcome {
    if r == 0 || (l == i64::MIN && r == -1) || !in_i64(rem_toward_zero(l, r) + r) {
        None
    } else {
        int_result(rem_toward_zero(rem_toward_zero(l, r) + r, r))
    }
}

/// `mod` is the floored remainder: whenever it evaluates, its result is
/// zero or has the sign of the divisor, and differs from the dividend by a
/// multiple of the divisor.
pub proof fn law_mod_is_floored(l: i64, r: i64)
    requires
        mod_spec(l as int, r as int) is Some,
    ensures
        mod_spec(l as int, r as int) == Some(
            Ok::<Value, EvalError>(Value::Int(floor_mod(l as int, r as int) as i64)),
        ),
        r > 0 ==> 0 <= floor_mod(l as int, r as int) < r,
        r < 0 ==> r < floor_mod(l as int, r as int) <= 0,
{
    let li = l as int;
    let ri = r as int;
    let a = rem_toward_zero(li, ri);
    let q1 = lemma_rem_toward_zero(li, ri);
    let s = a + ri;
    let q2 = lemma_rem_toward_zero(s, ri);
    let m = rem_toward_zero(s, ri);
    assert(li == (q1 + q2 - 1) * ri + m) by (nonlinear_arith)
        requires
            li == q1 * ri + a,
            s == q2 * ri + m,
            s == a + ri,
    ;
    lemma_floor_mod_unique(li, ri, q1 + q2 - 1, m);
}

/// Applying a binary operator to two values.
pub open spec fn binop_spec(op: BinOp, l: Value, r: Value) -> Outcome {
    match (op, l, r) {
        (BinOp::Exp, Value::Int(b), Value::Int(e)) => int_result(pow(b as int, (e as u32) as nat)),
        (BinOp::Exp, _, _) => fail("tried to get power of non-integer values"),
        (BinOp::Mul, Value::Int(a), Value::Int(b)) => int_result(a * b),
        (BinOp::Mul, _, _) => fail("tried multiplying non-integer values"),
        (BinOp::Div, Value::Int(a), Value::Int(b)) => if b == 0 {
            None
        } else {
            int_result(div_toward_zero(a as int, b as int))
        },
        (BinOp::Div, _, _) => fail("tried dividing non-integer values"),
        (BinOp::Mod, Value::Int(a), Value::Int(b)) => mod_spec(a as int, b as int),
        (BinOp::Mod, _, _) => fail("tried getting remainder of non-integer values"),
        (BinOp::And, Value::Bool(a), Value::Bool(b)) => Some(Ok(Value::Bool(a && b))),
        (BinOp::And, _, _) => fail("tried ANDing non-boolean values"),
        (BinOp::Add, Value::Int(a), Value::Int(b)) => int_result(a + b),
        (BinOp::Add, _, _) => fail("tried adding non-integer values"),
        (BinOp::Sub, Value::Int(a), Value::Int(b)) => int_result(a - b),
        (BinOp::Sub, _, _) => fail("tried subtracting non-integer values"),
        (BinOp::Or, Value::Bool(a), Value::Bool(b)) => Some(Ok(Value::Bool(a || b))),
        (BinOp::Or, _, _) => fail("tried ORing non-boolean values"),
        (BinOp::Xor, Value::Bool(a), Value::Bool(b)) => Some(Ok(Value::Bool(a != b))),
        (BinOp::Xor, Value::Int(a), Value::Int(b)) => Some(Ok(Value::Int(a ^ b))),
        (BinOp::Xor, _, _) => fail("tried XORing non-boolean or non-integer values"),
        (BinOp::Eq, a, b) => Some(Ok(Value::Bool(a == b))),
        (BinOp::Ne, a, b) => Some(Ok(Value::Bool(a != b))),
        (BinOp::Lt, Value::Int(a), Value::Int(b)) => Some(Ok(Value::Bool(a < b))),
        (BinOp::Lt, _, _) => fail("tried comparing non-integer values"),
        (BinOp::Gt, Value::Int(a), Value::Int(b)) => Some(Ok(Value::Bool(a > b))),
        (BinOp::Gt, _, _) => fail("tried comparing non-integer values"),
        (BinOp::Le, Value::Int(a), Value::Int(b)) => Some(Ok(Value::Bool(a <= b))),
        (BinOp::Le, _, _) => fail("tried comparing non-integer values"),
        (BinOp::Ge, Value::Int(a), Value::Int(b)) => Some(Ok(Value::Bool(a >= b))),
        (BinOp::Ge, _, _) => fail("tried comparing non-integer values"),
    }
}

/// Casting a value to a type: only `()`, `uint` to `int` and `int` to `uint`
/// are defined; the integer casts reinterpret the bits.
pub open spec fn cast_spec(ty: Type, v: Value) -> Outcome {
    match (ty, v) {
        (Type::Unit, _) => Some(Ok(Value::Nil)),
        (Type::Int, Value::Uint(x)) => Some(Ok(Value::Int(x as i64))),
        (Type::UInt, Value::Int(x)) => Some(Ok(Value::Uint(x as u64))),
        _ => None,
    }
}

/// The value of an expression in a scope (innermost binding last).
/// Operands are evaluated left to right and the first failure wins.
pub open spec fn eval_spec(e: Expr, s: Seq<(Seq<char>, Value)>) -> Outcome
    decreases e,
{
    match e {
        Expr::Term(term) => match term_value(term, s) {
            Some(v) => Some(Ok(v)),
            None => None,
        },
        Expr::Group(inner) => eval_spec(*inner, s),
        Expr::Cast(inner, ty) => match eval_spec(*inner, s) {
            Some(Ok(v)) => cast_spec(ty, v),
            other => other,
        },
        Expr::Not(inner) => match eval_spec(*inner, s) {
            Some(Ok(Value::Bool(b))) => Some(Ok(Value::Bool(!b))),
            Some(Ok(_)) => fail("tried NOTting non-boolean value"),
            other => other,
        },
        Expr::BinOp(op, left, right) => match eval_spec(*left, s) {
            Some(Ok(l)) => match eval_spec(*right, s) {
                Some(Ok(r)) => binop_spec(op, l, r),
                other => other,
            },
            other => other,
        },
        Expr::If(test, then_expr, else_expr) => match eval_spec(*test, s) {
            Some(Ok(v)) => if v == Value::Bool(true) {
                eval_spec(*then_expr, s)
            } else {
                eval_spec(*else_expr, s)
            },
            other => other,
        },
        Expr::Let(name, _, val, body) => match eval_spec(*val, s) {
            Some(Ok(v)) => eval_spec(*body, s.push((name@, v))),
            other => other,
        },
    }
}

/// A copy of a scope.
fn copy_scope(t: &Scope) -> (res: Scope)
    ensures
        res@ == t@,
{
    let mut res: Scope = Vec::new();
    let mut i: usize = 0;
    while i < t.len()
        invariant
            i <= t@.len(),
            res@ == t@.take(i as int),
        decreases t@.len() - i,
    {
        let name = t[i].0.clone();
        res.push((name, t[i].1));
        proof {
            assert(t@.take(i + 1) =~= t@.take(i as int).push(t@[i as int]));
        }
        i += 1;
    }
    assert(t@.take(t@.len() as int) =~= t@);
    res
}

fn eval_binop(op: BinOp, l: Value, r: Value) -> (res: EvalResult<Value>)
    requires
        binop_spec(op, l, r) is Some,
    ensures
        binop_spec(op, l, r) == Some(res),
{
    match (op, l, r) {
        // 4
        (BinOp::Exp, Value::Int(b), Value::Int(e)) => Ok(Value::Int(pow_i64(b, e as u32))),
        (BinOp::Exp, _, _) => Err(EvalError::TypeError("tried to get power of non-integer values")),
        // 5
        (BinOp::Mul, Value::Int(l), Value::Int(r)) => Ok(Value::Int(l * r)),
        (BinOp::Mul, _, _) => Err(EvalError::TypeError("tried multiplying non-integer values")),
        (BinOp::Div, Value::Int(l), Value::Int(r)) => Ok(Value::Int(div_i64(l, r))),
        (BinOp::Div, _, _) => Err(EvalError::TypeError("tried dividing non-integer values")),
        (BinOp::Mod, Value::Int(l), Value::Int(r)) => {
            let m = rem_i64(l, r);
            Ok(Value::Int(rem_i64(m + r, r)))
        },
        (BinOp::Mod, _, _) => Err(
            EvalError::TypeError("tried getting remainder of non-integer values"),
        ),
        (BinOp::And, Value::Bool(l), Value::Bool(r)) => Ok(Value::Bool(l && r)),
        (BinOp::And, _, _) => Err(EvalError::TypeError("tried ANDing non-boolean values")),
        // 6
        (BinOp::Add, Value::Int(l), Value::Int(r)) => Ok(Value::Int(l + r)),
        (BinOp::Add, _, _) => Err(EvalError::TypeError("tried adding non-integer values")),
        (BinOp::Sub, Value::Int(l), Value::Int(r)) => Ok(Value::Int(l - r)),
        (BinOp::Sub, _, _) => Err(EvalError::TypeError("tried subtracting non-integer values")),
        (BinOp::Or, Value::Bool(l), Value::Bool(r)) => Ok(Value::Bool(l || r)),
        (BinOp::Or, _, _) => Err(EvalError::TypeError("tried ORing non-boolean values")),
        (BinOp::Xor, Value::Bool(l), Value::Bool(r)) => Ok(Value::Bool(l != r)),
        (BinOp::Xor, Value::Int(l), Value::Int(r)) => Ok(Value::Int(l ^ r)),
        (BinOp::Xor, _, _) => Err(
            EvalError::TypeError("tried XORing non-boolean or non-integer values"),
        ),
        // 7
        (BinOp::Eq, l, r) => Ok(Value::Bool(l == r)),
        (BinOp::Ne, l, r) => Ok(Value::Bool(l != r)),
        (BinOp::Lt, Value::Int(l), Value::Int(r)) => Ok(Value::Bool(l < r)),
        (BinOp::Lt, _, _) => Err(EvalError::TypeError("tried comparing non-integer values")),
        (BinOp::Gt, Value::Int(l), Value::Int(r)) => Ok(Value::Bool(l > r)),
        (BinOp::Gt, _, _) => Err(EvalError::TypeError("tried comparing non-integer values")),
        (BinOp::Le, Value::Int(l), Value::Int(r)) => Ok(Value::Bool(l <= r)),
        (BinOp::Le, _, _) => Err(EvalError::TypeError("tried comparing non-integer values")),
        (BinOp::Ge, Value::Int(l), Value::Int(r)) => Ok(Value::Bool(l >= r)),
        (BinOp::Ge, _, _) => Err(EvalError::TypeError("tried comparing non-integer values")),
    }
}

impl Expr {
    /// Evaluates the expression in scope `t`.
    pub fn eval(&self, t: &Scope) -> (res: EvalResult<Value>)
        requires
            eval_spec(*self, scope_view(t@)) is Some,
        ensures
            eval_spec(*self, scope_view(t@)) == Some(res),
        decreases self,
    {
        match self {
            // 1
            Expr::Term(term) => Ok(term.eval(t)),
            Expr::Group(e) => Ok(e.eval(t)?),
            Expr::Cast(e, typ) => match (typ, e.eval(t)?) {
                (Type::Unit, _) => Ok(Value::Nil),
                (Type::Int, Value::Uint(v)) => Ok(Value::Int(v as i64)),
                (Type::UInt, Value::Int(v)) => Ok(Value::Uint(v as u64)),
                _ => {
                    assert(false);
                    Ok(Value::Nil)
                },
            },
            // 3
            Expr::Not(e) => match e.eval(t)? {
                Value::Bool(true) => Ok(Value::Bool(false)),
                Value::Bool(false) => Ok(Value::Bool(true)),
                _ => Err(EvalError::TypeError("tried NOTting non-boolean value")),
            },
            // 4 - 7
            Expr::BinOp(op, left, right) => {
                let left = left.eval(t)?;
                let right = right.eval(t)?;
                eval_binop(*op, left, right)
            },
            Expr::If(test, expr, else_expr) => {
                if test.eval(t)? == Value::Bool(true) {
                    expr.eval(t)
                } else {
                    else_expr.eval(t)
                }
            },
            Expr::Let(name, _, val, scope) => {
                let val = val.eval(t)?;
                let mut t_copy = copy_scope(t);
                t_copy.push((name.clone(), val));
                proof {
                    assert(scope_view(t_copy@) =~= scope_view(t@).push((name@, val)));
                }
                scope.eval(&t_copy)
            },
        }
    }
}

/// `!=` is the negation of `=`: on the same operands both fail or trap
/// alike, and otherwise give opposite booleans.
pub proof fn law_ne_is_not_eq(a: Expr, b: Expr, s: Seq<(Seq<char>, Value)>)
    ensures
        match eval_spec(bin(BinOp::Eq, a, b), s) {
            Some(Ok(Value::Bool(x))) => eval_spec(bin(BinOp::Ne, a, b), s) == Some(
                Ok::<Value, EvalError>(Value::Bool(!x)),
            ),
            other => eval_spec(bin(BinOp::Ne, a, b), s) == other,
        },
{
}

/// Parentheses change nothing: a group has the value of what it encloses.
pub proof fn law_group_is_transparent(e: Expr, s: Seq<(Seq<char>, Value)>)
    ensures
        eval_spec(Expr::Group(Box::new(e)), s) == eval_spec(e, s),
{
}

/// A `let` binds its name to the value it computes: in the body, the name
/// reads back that value, and every other name reads what it read outside.
pub proof fn law_let_binds(
    name: String,
    ty: Option<Type>,
    val: Expr,
    k: String,
    s: Seq<(Seq<char>, Value)>,
)
    requires
        eval_spec(val, s) matches Some(Ok(_)),
    ensures
        eval_spec(
            Expr::Let(name, ty, Box::new(val), Box::new(Expr::Term(Term::Ident(k)))),
            s,
        ) == if k@ == name@ {
            eval_spec(val, s)
        } else {
            match lookup(s, k@) {
                Some(v) => Some(Ok::<Value, EvalError>(v)),
                None => None,
            }
        },
{
    let v = eval_spec(val, s)->Some_0->Ok_0;
    let inner = s.push((name@, v));
    assert(inner.drop_last() =~= s);
    assert(inner.last() == (name@, v));
    assert(eval_spec(
        Expr::Let(name, ty, Box::new(val), Box::new(Expr::Term(Term::Ident(k)))),
        s,
    ) == eval_spec(Expr::Term(Term::Ident(k)), inner));
}

} // verus!
