//! Laws saying what each operator of the evaluator computes, in terms of its
//! operands as integers and booleans.

use vstd::prelude::*;

use vstd::arithmetic::power::pow;

use crate::arith::{abs, div_toward_zero, in_i64, lemma_rem_toward_zero};
use crate::eval::eval_spec;
use crate::expr::{bin, BinOp, Expr};
use crate::value::{EvalError, Type, Value};

use vstd::arithmetic::power::lemma_pow0;

verus! {

/// Comparisons on integers mean what they mean on mathematical integers:
/// `<`, `>`, `<=`, `>=` hold exactly when they hold of the values; `x > y` is
/// `y < x`, `x >= y` is the negation of `x < y`, `x <= y` the negation of
/// `x > y`, and `x < x`, `x > x` are false while `x <= x`, `x >= x` are true.
pub proof fn law_integer_comparisons(x: Expr, y: Expr, a: i64, b: i64, s: Seq<(Seq<char>, Value)>)
    requires
        eval_spec(x, s) == Some(Ok::<Value, EvalError>(Value::Int(a))),
        eval_spec(y, s) == Some(Ok::<Value, EvalError>(Value::Int(b))),
    ensures
        eval_spec(bin(BinOp::Lt, x, y), s) == Some(Ok::<Value, EvalError>(Value::Bool((a as int) < (b as int)))),
        eval_spec(bin(BinOp::Gt, x, y), s) == Some(Ok::<Value, EvalError>(Value::Bool((a as int) > (b as int)))),
        eval_spec(bin(BinOp::Le, x, y), s) == Some(Ok::<Value, EvalError>(Value::Bool((a as int) <= (b as int)))),
        eval_spec(bin(BinOp::Ge, x, y), s) == Some(Ok::<Value, EvalError>(Value::Bool((a as int) >= (b as int)))),
        eval_spec(bin(BinOp::Gt, x, y), s) == eval_spec(bin(BinOp::Lt, y, x), s),
        eval_spec(bin(BinOp::Le, x, y), s) == eval_spec(bin(BinOp::Ge, y, x), s),
        eval_spec(bin(BinOp::Ge, x, y), s) == Some(Ok::<Value, EvalError>(Value::Bool(
            !(eval_spec(bin(BinOp::Lt, x, y), s) == Some(Ok::<Value, EvalError>(Value::Bool(true)))),
        ))),
        eval_spec(bin(BinOp::Le, x, y), s) == Some(Ok::<Value, EvalError>(Value::Bool(
            !(eval_spec(bin(BinOp::Gt, x, y), s) == Some(Ok::<Value, EvalError>(Value::Bool(true)))),
        ))),
        eval_spec(bin(BinOp::Lt, x, x), s) == Some(Ok::<Value, EvalError>(Value::Bool(false))),
        eval_spec(bin(BinOp::Gt, x, x), s) == Some(Ok::<Value, EvalError>(Value::Bool(false))),
        eval_spec(bin(BinOp::Le, x, x), s) == Some(Ok::<Value, EvalError>(Value::Bool(true))),
        eval_spec(bin(BinOp::Ge, x, x), s) == Some(Ok::<Value, EvalError>(Value::Bool(true))),
        eval_spec(bin(BinOp::Eq, x, x), s) == Some(Ok::<Value, EvalError>(Value::Bool(true))),
        eval_spec(bin(BinOp::Eq, x, y), s) == Some(Ok::<Value, EvalError>(Value::Bool(a == b))),
        eval_spec(bin(BinOp::Ne, x, y), s) == Some(Ok::<Value, EvalError>(Value::Bool(a != b))),
{
}

/// Sums, differences and products are those of the integers, and trap
/// (evaluate to nothing) exactly when that integer does not fit in `i64`;
/// `+` and `*` do not depend on the order of their operands, and a
/// difference added back to the subtrahend gives the minuend.
pub proof fn law_integer_arithmetic(x: Expr, y: Expr, a: i64, b: i64, s: Seq<(Seq<char>, Value)>)
    requires
        eval_spec(x, s) == Some(Ok::<Value, EvalError>(Value::Int(a))),
        eval_spec(y, s) == Some(Ok::<Value, EvalError>(Value::Int(b))),
    ensures
        eval_spec(bin(BinOp::Add, x, y), s) == if in_i64(a + b) {
            Some(Ok::<Value, EvalError>(Value::Int((a + b) as i64)))
        } else {
            None
        },
        eval_spec(bin(BinOp::Sub, x, y), s) == if in_i64(a - b) {
            Some(Ok::<Value, EvalError>(Value::Int((a - b) as i64)))
        } else {
            None
        },
        eval_spec(bin(BinOp::Mul, x, y), s) == if in_i64(a * b) {
            Some(Ok::<Value, EvalError>(Value::Int((a * b) as i64)))
        } else {
            None
        },
        eval_spec(bin(BinOp::Add, x, y), s) == eval_spec(bin(BinOp::Add, y, x), s),
        eval_spec(bin(BinOp::Mul, x, y), s) == eval_spec(bin(BinOp::Mul, y, x), s),
        eval_spec(bin(BinOp::Sub, x, y), s) matches Some(Ok(Value::Int(d))) ==> d + b == a,
{
    assert(a * b == b * a) by (nonlinear_arith);
}

/// Division truncates toward zero: it traps exactly on a zero divisor or on
/// `i64::MIN / -1`, and otherwise its quotient `q` leaves a remainder
/// `a - q * b` smaller than the divisor in size and zero or of the sign of
/// the dividend.
pub proof fn law_division_truncates(x: Expr, y: Expr, a: i64, b: i64, s: Seq<(Seq<char>, Value)>)
    requires
        eval_spec(x, s) == Some(Ok::<Value, EvalError>(Value::Int(a))),
        eval_spec(y, s) == Some(Ok::<Value, EvalError>(Value::Int(b))),
    ensures
        eval_spec(bin(BinOp::Div, x, y), s) is None <==> (b == 0 || (a == i64::MIN && b == -1)),
        eval_spec(bin(BinOp::Div, x, y), s) matches Some(r) ==> (r matches Ok(Value::Int(q)) && abs(
            a - q * b,
        ) < abs(b as int) && (a >= 0 ==> a - q * b >= 0) && (a < 0 ==> a - q * b <= 0)),
{
    if b != 0 {
        let q = lemma_rem_toward_zero(a as int, b as int);
        let aa = abs(a as int);
        let ab = abs(b as int);
        assert(aa / ab <= aa) by {
            vstd::arithmetic::div_mod::lemma_div_is_ordered_by_denominator(aa, 1, ab);
        }
        assert(aa / 1 == aa);
        assert(0 <= aa / ab) by {
            vstd::arithmetic::div_mod::lemma_div_pos_is_pos(aa, ab);
        }
        if ab >= 2 {
            assert(aa / ab <= aa / 2) by {
                vstd::arithmetic::div_mod::lemma_div_is_ordered_by_denominator(aa, 2, ab);
            }
        }
        if !(a == i64::MIN && b == -1) {
            assert(in_i64(div_toward_zero(a as int, b as int)));
        } else {
            assert(div_toward_zero(a as int, b as int) == 0x8000_0000_0000_0000int);
        }
    }
}

/// Powers are those of the integers: for an exponent in `0..2^32` a
/// result that fits is `a` to that power, anything to the power zero is one,
/// and a power that does not fit traps.
pub proof fn law_powers(x: Expr, y: Expr, a: i64, b: i64, s: Seq<(Seq<char>, Value)>)
    requires
        eval_spec(x, s) == Some(Ok::<Value, EvalError>(Value::Int(a))),
        eval_spec(y, s) == Some(Ok::<Value, EvalError>(Value::Int(b))),
        0 <= b <= u32::MAX,
    ensures
        eval_spec(bin(BinOp::Exp, x, y), s) == if in_i64(pow(a as int, b as nat)) {
            Some(Ok::<Value, EvalError>(Value::Int(pow(a as int, b as nat) as i64)))
        } else {
            None
        },
        b == 0 ==> eval_spec(bin(BinOp::Exp, x, y), s) == Some(Ok::<Value, EvalError>(Value::Int(1))),
{
    assert((b as u32) as nat == b as nat);
    lemma_pow0(a as int);
}

/// The boolean operators are those of logic: `and`, `or` and `xor` are
/// conjunction, disjunction and difference, `not` is negation, and
/// `not (x and y)` is `not x or not y`.
pub proof fn law_boolean_operators(x: Expr, y: Expr, a: bool, b: bool, s: Seq<(Seq<char>, Value)>)
    requires
        eval_spec(x, s) == Some(Ok::<Value, EvalError>(Value::Bool(a))),
        eval_spec(y, s) == Some(Ok::<Value, EvalError>(Value::Bool(b))),
    ensures
        eval_spec(bin(BinOp::And, x, y), s) == Some(Ok::<Value, EvalError>(Value::Bool(a && b))),
        eval_spec(bin(BinOp::Or, x, y), s) == Some(Ok::<Value, EvalError>(Value::Bool(a || b))),
        eval_spec(bin(BinOp::Xor, x, y), s) == Some(Ok::<Value, EvalError>(Value::Bool(a != b))),
        eval_spec(Expr::Not(Box::new(x)), s) == Some(Ok::<Value, EvalError>(Value::Bool(!a))),
        eval_spec(Expr::Not(Box::new(bin(BinOp::And, x, y))), s) == eval_spec(
            bin(BinOp::Or, Expr::Not(Box::new(x)), Expr::Not(Box::new(y))),
            s,
        ),
        eval_spec(Expr::Not(Box::new(Expr::Not(Box::new(x)))), s) == eval_spec(x, s),
{
    assert(eval_spec(bin(BinOp::And, x, y), s) == Some(Ok::<Value, EvalError>(Value::Bool(a && b))));
    assert(eval_spec(Expr::Not(Box::new(x)), s) == Some(Ok::<Value, EvalError>(Value::Bool(!a))));
    assert(eval_spec(Expr::Not(Box::new(y)), s) == Some(Ok::<Value, EvalError>(Value::Bool(!b))));
}

/// `if` picks a branch by its test: `true` gives the value of the first
/// branch and any other value that of the second; with both branches the
/// same, the test's value does not matter.
pub proof fn law_if_picks_branch(t: Expr, e1: Expr, e2: Expr, v: Value, s: Seq<(Seq<char>, Value)>)
    requires
        eval_spec(t, s) == Some(Ok::<Value, EvalError>(v)),
    ensures
        v == Value::Bool(true) ==> eval_spec(
            Expr::If(Box::new(t), Box::new(e1), Box::new(e2)),
            s,
        ) == eval_spec(e1, s),
        v != Value::Bool(true) ==> eval_spec(
            Expr::If(Box::new(t), Box::new(e1), Box::new(e2)),
            s,
        ) == eval_spec(e2, s),
        eval_spec(Expr::If(Box::new(t), Box::new(e1), Box::new(e1)), s) == eval_spec(e1, s),
{
}

/// The integer casts reinterpret the bits, so casting to the other integer
/// type and back gives the value back, and a non-negative `int` keeps its
/// number as a `uint`.
pub proof fn law_casts_round_trip(x: Expr, s: Seq<(Seq<char>, Value)>)
    ensures
        eval_spec(x, s) matches Some(Ok(Value::Int(a))) ==> eval_spec(
            Expr::Cast(Box::new(Expr::Cast(Box::new(x), Type::UInt)), Type::Int),
            s,
        ) == eval_spec(x, s),
        eval_spec(x, s) matches Some(Ok(Value::Uint(u))) ==> eval_spec(
            Expr::Cast(Box::new(Expr::Cast(Box::new(x), Type::Int)), Type::UInt),
            s,
        ) == eval_spec(x, s),
        eval_spec(x, s) matches Some(Ok(Value::Int(a))) ==> (a >= 0 ==> eval_spec(
            Expr::Cast(Box::new(x), Type::UInt),
            s,
        ) == Some(Ok::<Value, EvalError>(Value::Uint(a as u64)))) && (a >= 0 ==> (a as u64) as int
            == a as int),
{
    if let Some(Ok(Value::Int(a))) = eval_spec(x, s) {
        assert(((a as u64) as i64) == a) by (bit_vector);
        assert(eval_spec(Expr::Cast(Box::new(x), Type::UInt), s) == Some(
            Ok::<Value, EvalError>(Value::Uint(a as u64)),
        ));
    }
    if let Some(Ok(Value::Uint(u))) = eval_spec(x, s) {
        assert(((u as i64) as u64) == u) by (bit_vector);
        assert(eval_spec(Expr::Cast(Box::new(x), Type::Int), s) == Some(
            Ok::<Value, EvalError>(Value::Int(u as i64)),
        ));
    }
}

} // verus!
