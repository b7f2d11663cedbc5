//! Laws of the expression grammar, proved on its spec functions: every parse
//! takes tokens from the front only; chains of any length group as the
//! grammar says; `if` and `let` report the first error they meet.

use vstd::prelude::*;

use crate::expr::{
    add_op, bin, mul_op, op_at, parse_atom_spec, parse_exp_spec, parse_expr_spec, parse_rel_spec,
    parse_spec, parse_term_spec, rel_op, rel_tail_spec, expr_tail_spec, term_tail_spec, BinOp,
    Expr,
};
use crate::token::{
    after_first, first_token, lemma_after_first_taken, lemma_taken_from_front_refl,
    lemma_taken_from_front_trans, taken_from_front, Token,
};
use crate::value::{parse_type_spec, type_of_token, Type};

verus! {

broadcast use lemma_taken_from_front_trans;

/// `Expr::parse` leaves what is left of its input once tokens were taken
/// from the front. (So the length checks in the spec functions, there only
/// to show that they terminate, always pass.)
pub proof fn lemma_parse_suffix(ts: Seq<Token>)
    ensures
        taken_from_front(ts, parse_spec(ts).1),
    decreases ts.len(), 10nat,
{
    lemma_after_first_taken(ts);
    if first_token(ts) == Some(Token::If) {
        let ts1 = ts.drop_first();
        lemma_rel_suffix(ts1);
        let (r1, rest1) = parse_rel_spec(ts1);
        lemma_after_first_taken(rest1);
        if r1 is Ok && first_token(rest1) == Some(Token::Then) {
            let ts2 = rest1.drop_first();
            lemma_parse_suffix(ts2);
            let (r2, rest2) = parse_spec(ts2);
            lemma_after_first_taken(rest2);
            if r2 is Ok && first_token(rest2) == Some(Token::Else) {
                lemma_parse_suffix(rest2.drop_first());
            }
        }
    } else if first_token(ts) == Some(Token::Let) {
        let ts1 = ts.drop_first();
        lemma_after_first_taken(ts1);
        if let Some(Token::Ident(_)) = first_token(ts1) {
            let ts2 = ts1.drop_first();
            lemma_after_first_taken(ts2);
            lemma_after_first_taken(after_first(ts2));
            lemma_taken_from_front_refl(ts2);
            let ts3 = if first_token(ts2) == Some(Token::Colon) {
                parse_type_spec(ts2.drop_first()).1
            } else {
                ts2
            };
            lemma_after_first_taken(ts3);
            if first_token(ts3) == Some(Token::Eq) {
                let ts4 = ts3.drop_first();
                lemma_rel_suffix(ts4);
                let (rv, ts5) = parse_rel_spec(ts4);
                lemma_after_first_taken(ts5);
                if rv is Ok && first_token(ts5) == Some(Token::Newline) {
                    lemma_parse_suffix(ts5.drop_first());
                }
            }
        }
    } else {
        lemma_rel_suffix(ts);
    }
}

pub proof fn lemma_rel_suffix(ts: Seq<Token>)
    ensures
        taken_from_front(ts, parse_rel_spec(ts).1),
    decreases ts.len(), 8nat,
{
    lemma_expr_suffix(ts);
    let (r, rest) = parse_expr_spec(ts);
    if let Ok(first) = r {
        lemma_rel_tail_suffix(rest, first);
    }
}

pub proof fn lemma_rel_tail_suffix(ts: Seq<Token>, acc: Expr)
    ensures
        taken_from_front(ts, rel_tail_spec(ts, acc).1),
    decreases ts.len(), 7nat,
{
    lemma_taken_from_front_refl(ts);
    if let Some(op) = op_at(7, ts) {
        lemma_after_first_taken(ts);
        lemma_expr_suffix(ts.drop_first());
        let (r, rest) = parse_expr_spec(ts.drop_first());
        if let Ok(rhs) = r {
            lemma_rel_tail_suffix(rest, bin(op, acc, rhs));
        }
    }
}

pub proof fn lemma_expr_suffix(ts: Seq<Token>)
    ensures
        taken_from_front(ts, parse_expr_spec(ts).1),
    decreases ts.len(), 6nat,
{
    lemma_term_suffix(ts);
    let (r, rest) = parse_term_spec(ts);
    if let Ok(first) = r {
        lemma_expr_tail_suffix(rest, first);
    }
}

pub proof fn lemma_expr_tail_suffix(ts: Seq<Token>, acc: Expr)
    ensures
        taken_from_front(ts, expr_tail_spec(ts, acc).1),
    decreases ts.len(), 5nat,
{
    lemma_taken_from_front_refl(ts);
    if let Some(op) = op_at(6, ts) {
        lemma_after_first_taken(ts);
        lemma_term_suffix(ts.drop_first());
        let (r, rest) = parse_term_spec(ts.drop_first());
        if let Ok(rhs) = r {
            lemma_expr_tail_suffix(rest, bin(op, acc, rhs));
        }
    }
}

pub proof fn lemma_term_suffix(ts: Seq<Token>)
    ensures
        taken_from_front(ts, parse_term_spec(ts).1),
    decreases ts.len(), 4nat,
{
    lemma_exp_suffix(ts);
    let (r, rest) = parse_exp_spec(ts);
    if let Ok(first) = r {
        lemma_term_tail_suffix(rest, first);
    }
}

pub proof fn lemma_term_tail_suffix(ts: Seq<Token>, acc: Expr)
    ensures
        taken_from_front(ts, term_tail_spec(ts, acc).1),
    decreases ts.len(), 3nat,
{
    lemma_taken_from_front_refl(ts);
    lemma_after_first_taken(ts);
    if first_token(ts) == Some(Token::As) {
        let ts1 = ts.drop_first();
        lemma_after_first_taken(ts1);
        let (r, rest) = parse_type_spec(ts1);
        if let Ok(ty) = r {
            lemma_term_tail_suffix(rest, Expr::Cast(Box::new(acc), ty));
        }
    } else if let Some(op) = op_at(5, ts) {
        lemma_exp_suffix(ts.drop_first());
        let (r, rest) = parse_exp_spec(ts.drop_first());
        if let Ok(rhs) = r {
            lemma_term_tail_suffix(rest, bin(op, acc, rhs));
        }
    }
}

pub proof fn lemma_exp_suffix(ts: Seq<Token>)
    ensures
        taken_from_front(ts, parse_exp_spec(ts).1),
    decreases ts.len(), 2nat,
{
    lemma_atom_suffix(ts);
    let (r, rest) = parse_atom_spec(ts);
    if r is Ok && first_token(rest) == Some(Token::Caret) {
        lemma_after_first_taken(rest);
        lemma_exp_suffix(rest.drop_first());
    }
}

pub proof fn lemma_atom_suffix(ts: Seq<Token>)
    ensures
        taken_from_front(ts, parse_atom_spec(ts).1),
    decreases ts.len(), 1nat,
{
    lemma_after_first_taken(ts);
    if first_token(ts) == Some(Token::LParen) {
        lemma_parse_suffix(ts.drop_first());
        let (r, rest) = parse_spec(ts.drop_first());
        lemma_after_first_taken(rest);
    } else if first_token(ts) == Some(Token::Not) {
        lemma_atom_suffix(ts.drop_first());
    }
}

/// A chain `acc op0 e0 op1 e1 ...` grouped from the left.
pub open spec fn fold_left(acc: Expr, ops: Seq<BinOp>, es: Seq<Expr>) -> Expr
    decreases ops.len(),
{
    if ops.len() == 0 || es.len() == 0 {
        acc
    } else {
        fold_left(bin(ops[0], acc, es[0]), ops.drop_first(), es.drop_first())
    }
}

/// A chain `a0 ^ a1 ^ ... ^ ak` grouped from the right.
pub open spec fn fold_right_exp(atoms: Seq<Expr>) -> Expr
    decreases atoms.len(),
{
    if atoms.len() <= 1 {
        atoms[0]
    } else {
        bin(BinOp::Exp, atoms[0], fold_right_exp(atoms.drop_first()))
    }
}

pub open spec fn rel_ops(ops: Seq<Token>) -> Seq<BinOp> {
    ops.map_values(|t: Token| rel_op(t)->0)
}

pub open spec fn add_ops(ops: Seq<Token>) -> Seq<BinOp> {
    ops.map_values(|t: Token| add_op(t)->0)
}

pub open spec fn mul_ops(ops: Seq<Token>) -> Seq<BinOp> {
    ops.map_values(|t: Token| mul_op(t)->0)
}

proof fn lemma_rel_tail_fold(acc: Expr, es: Seq<Expr>, ops: Seq<Token>, rests: Seq<Seq<Token>>)
    requires
        es.len() == ops.len(),
        rests.len() == ops.len() + 1,
        forall|i: int|
            0 <= i < ops.len() ==> {
                &&& first_token(rests[i]) == Some(#[trigger] ops[i])
                &&& rel_op(ops[i]) is Some
                &&& parse_expr_spec(rests[i].drop_first()) == (
                    Ok::<Expr, &'static str>(es[i]),
                    rests[i + 1],
                )
            },
        op_at(7, rests.last()) is None,
    ensures
        rel_tail_spec(rests[0], acc) == (
            Ok::<Expr, &'static str>(fold_left(acc, rel_ops(ops), es)),
            rests.last(),
        ),
    decreases ops.len(),
{
    if ops.len() > 0 {
        let ts = rests[0];
        assert(first_token(rests[0]) == Some(ops[0]));
        lemma_after_first_taken(ts);
        lemma_expr_suffix(ts.drop_first());
        assert(rel_ops(ops.drop_first()) =~= rel_ops(ops).drop_first());
        let next = bin(rel_op(ops[0])->0, acc, es[0]);
        assert forall|i: int| 0 <= i < ops.len() - 1 implies {
            &&& first_token(rests.drop_first()[i]) == Some(#[trigger] ops.drop_first()[i])
            &&& rel_op(ops.drop_first()[i]) is Some
            &&& parse_expr_spec(rests.drop_first()[i].drop_first()) == (
                Ok::<Expr, &'static str>(es.drop_first()[i]),
                rests.drop_first()[i + 1],
            )
        } by {
            assert(ops.drop_first()[i] == ops[i + 1]);
        }
        lemma_rel_tail_fold(next, es.drop_first(), ops.drop_first(), rests.drop_first());
    }
}

/// A relational chain of any length groups from the left: if `parse_expr`
/// reads `e0`, then each `oi` is a relational operator after which
/// `parse_expr` reads `ei`, and no relational operator follows, then
/// `parse_rel` gives `(...(e0 o1 e1) o2 e2 ...) ok ek` and leaves what
/// follows `ek`.
pub proof fn law_relations_fold_left(
    ts: Seq<Token>,
    es: Seq<Expr>,
    ops: Seq<Token>,
    rests: Seq<Seq<Token>>,
)
    requires
        es.len() == ops.len() + 1,
        rests.len() == ops.len() + 1,
        parse_expr_spec(ts) == (Ok::<Expr, &'static str>(es[0]), rests[0]),
        forall|i: int|
            0 <= i < ops.len() ==> {
                &&& first_token(rests[i]) == Some(#[trigger] ops[i])
                &&& rel_op(ops[i]) is Some
                &&& parse_expr_spec(rests[i].drop_first()) == (
                    Ok::<Expr, &'static str>(es[i + 1]),
                    rests[i + 1],
                )
            },
        op_at(7, rests.last()) is None,
    ensures
        parse_rel_spec(ts) == (
            Ok::<Expr, &'static str>(fold_left(es[0], rel_ops(ops), es.drop_first())),
            rests.last(),
        ),
{
    lemma_expr_suffix(ts);
    lemma_rel_tail_fold(es[0], es.drop_first(), ops, rests);
}

proof fn lemma_sum_tail_fold(acc: Expr, es: Seq<Expr>, ops: Seq<Token>, rests: Seq<Seq<Token>>)
    requires
        es.len() == ops.len(),
        rests.len() == ops.len() + 1,
        forall|i: int|
            0 <= i < ops.len() ==> {
                &&& first_token(rests[i]) == Some(#[trigger] ops[i])
                &&& add_op(ops[i]) is Some
                &&& parse_term_spec(rests[i].drop_first()) == (
                    Ok::<Expr, &'static str>(es[i]),
                    rests[i + 1],
                )
            },
        op_at(6, rests.last()) is None,
    ensures
        expr_tail_spec(rests[0], acc) == (
            Ok::<Expr, &'static str>(fold_left(acc, add_ops(ops), es)),
            rests.last(),
        ),
    decreases ops.len(),
{
    if ops.len() > 0 {
        let ts = rests[0];
        assert(first_token(rests[0]) == Some(ops[0]));
        lemma_after_first_taken(ts);
        lemma_term_suffix(ts.drop_first());
        assert(add_ops(ops.drop_first()) =~= add_ops(ops).drop_first());
        let next = bin(add_op(ops[0])->0, acc, es[0]);
        assert forall|i: int| 0 <= i < ops.len() - 1 implies {
            &&& first_token(rests.drop_first()[i]) == Some(#[trigger] ops.drop_first()[i])
            &&& add_op(ops.drop_first()[i]) is Some
            &&& parse_term_spec(rests.drop_first()[i].drop_first()) == (
                Ok::<Expr, &'static str>(es.drop_first()[i]),
                rests.drop_first()[i + 1],
            )
        } by {
            assert(ops.drop_first()[i] == ops[i + 1]);
        }
        lemma_sum_tail_fold(next, es.drop_first(), ops.drop_first(), rests.drop_first());
    }
}

/// An additive chain of any length groups from the left, as
/// `law_relations_fold_left` says of relational chains, with `parse_term`
/// reading the operands.
pub proof fn law_sums_fold_left(
    ts: Seq<Token>,
    es: Seq<Expr>,
    ops: Seq<Token>,
    rests: Seq<Seq<Token>>,
)
    requires
        es.len() == ops.len() + 1,
        rests.len() == ops.len() + 1,
        parse_term_spec(ts) == (Ok::<Expr, &'static str>(es[0]), rests[0]),
        forall|i: int|
            0 <= i < ops.len() ==> {
                &&& first_token(rests[i]) == Some(#[trigger] ops[i])
                &&& add_op(ops[i]) is Some
                &&& parse_term_spec(rests[i].drop_first()) == (
                    Ok::<Expr, &'static str>(es[i + 1]),
                    rests[i + 1],
                )
            },
        op_at(6, rests.last()) is None,
    ensures
        parse_expr_spec(ts) == (
            Ok::<Expr, &'static str>(fold_left(es[0], add_ops(ops), es.drop_first())),
            rests.last(),
        ),
{
    lemma_term_suffix(ts);
    lemma_sum_tail_fold(es[0], es.drop_first(), ops, rests);
}

proof fn lemma_product_tail_fold(
    acc: Expr,
    es: Seq<Expr>,
    ops: Seq<Token>,
    rests: Seq<Seq<Token>>,
)
    requires
        es.len() == ops.len(),
        rests.len() == ops.len() + 1,
        forall|i: int|
            0 <= i < ops.len() ==> {
                &&& first_token(rests[i]) == Some(#[trigger] ops[i])
                &&& mul_op(ops[i]) is Some
                &&& parse_exp_spec(rests[i].drop_first()) == (
                    Ok::<Expr, &'static str>(es[i]),
                    rests[i + 1],
                )
            },
        op_at(5, rests.last()) is None,
        first_token(rests.last()) != Some(Token::As),
    ensures
        term_tail_spec(rests[0], acc) == (
            Ok::<Expr, &'static str>(fold_left(acc, mul_ops(ops), es)),
            rests.last(),
        ),
    decreases ops.len(),
{
    if ops.len() > 0 {
        let ts = rests[0];
        assert(first_token(rests[0]) == Some(ops[0]));
        lemma_after_first_taken(ts);
        lemma_exp_suffix(ts.drop_first());
        assert(mul_ops(ops.drop_first()) =~= mul_ops(ops).drop_first());
        let next = bin(mul_op(ops[0])->0, acc, es[0]);
        assert forall|i: int| 0 <= i < ops.len() - 1 implies {
            &&& first_token(rests.drop_first()[i]) == Some(#[trigger] ops.drop_first()[i])
            &&& mul_op(ops.drop_first()[i]) is Some
            &&& parse_exp_spec(rests.drop_first()[i].drop_first()) == (
                Ok::<Expr, &'static str>(es.drop_first()[i]),
                rests.drop_first()[i + 1],
            )
        } by {
            assert(ops.drop_first()[i] == ops[i + 1]);
        }
        lemma_product_tail_fold(next, es.drop_first(), ops.drop_first(), rests.drop_first());
    }
}

/// A multiplicative chain of any length groups from the left, as
/// `law_relations_fold_left` says of relational chains, with `parse_exp`
/// reading the operands; what follows the chain is no `as`, which would
/// cast it.
pub proof fn law_products_fold_left(
    ts: Seq<Token>,
    es: Seq<Expr>,
    ops: Seq<Token>,
    rests: Seq<Seq<Token>>,
)
    requires
        es.len() == ops.len() + 1,
        rests.len() == ops.len() + 1,
        parse_exp_spec(ts) == (Ok::<Expr, &'static str>(es[0]), rests[0]),
        forall|i: int|
            0 <= i < ops.len() ==> {
                &&& first_token(rests[i]) == Some(#[trigger] ops[i])
                &&& mul_op(ops[i]) is Some
                &&& parse_exp_spec(rests[i].drop_first()) == (
                    Ok::<Expr, &'static str>(es[i + 1]),
                    rests[i + 1],
                )
            },
        op_at(5, rests.last()) is None,
        first_token(rests.last()) != Some(Token::As),
    ensures
        parse_term_spec(ts) == (
            Ok::<Expr, &'static str>(fold_left(es[0], mul_ops(ops), es.drop_first())),
            rests.last(),
        ),
{
    lemma_exp_suffix(ts);
    lemma_product_tail_fold(es[0], es.drop_first(), ops, rests);
}

/// A chain of `^` of any length groups from the right: if `parse_atom` reads
/// `a0`, then each `^` is followed by what `parse_atom` reads as `ai`, and no
/// `^` follows `ak`, then `parse_exp` gives `a0 ^ (a1 ^ (... ^ ak))` and
/// leaves what follows `ak`.
pub proof fn law_powers_fold_right(ts: Seq<Token>, atoms: Seq<Expr>, rests: Seq<Seq<Token>>)
    requires
        atoms.len() >= 1,
        rests.len() == atoms.len(),
        parse_atom_spec(ts) == (Ok::<Expr, &'static str>(atoms[0]), rests[0]),
        forall|i: int|
            0 <= i < atoms.len() - 1 ==> {
                &&& first_token(#[trigger] rests[i]) == Some(Token::Caret)
                &&& parse_atom_spec(rests[i].drop_first()) == (
                    Ok::<Expr, &'static str>(atoms[i + 1]),
                    rests[i + 1],
                )
            },
        first_token(rests.last()) != Some(Token::Caret),
    ensures
        parse_exp_spec(ts) == (Ok::<Expr, &'static str>(fold_right_exp(atoms)), rests.last()),
    decreases atoms.len(),
{
    lemma_atom_suffix(ts);
    if atoms.len() > 1 {
        assert(first_token(rests[0]) == Some(Token::Caret));
        assert forall|i: int| 0 <= i < atoms.len() - 2 implies {
            &&& first_token(#[trigger] rests.drop_first()[i]) == Some(Token::Caret)
            &&& parse_atom_spec(rests.drop_first()[i].drop_first()) == (
                Ok::<Expr, &'static str>(atoms.drop_first()[i + 1]),
                rests.drop_first()[i + 1],
            )
        } by {
            assert(rests.drop_first()[i] == rests[i + 1]);
        }
        law_powers_fold_right(rests[0].drop_first(), atoms.drop_first(), rests.drop_first());
    }
}

/// A parenthesised expression is a group of what it encloses, ending after
/// the `)`.
pub proof fn law_parentheses_group(ts: Seq<Token>, e: Expr, r: Seq<Token>)
    requires
        first_token(ts) == Some(Token::LParen),
        parse_spec(ts.drop_first()) == (Ok::<Expr, &'static str>(e), r),
        first_token(r) == Some(Token::RParen),
    ensures
        parse_atom_spec(ts) == (Ok::<Expr, &'static str>(Expr::Group(Box::new(e))), r.drop_first()),
{
}

/// `not` negates the atom after it, and ends where that atom ends.
pub proof fn law_not_negates_atom(ts: Seq<Token>, a: Expr, r: Seq<Token>)
    requires
        first_token(ts) == Some(Token::Not),
        parse_atom_spec(ts.drop_first()) == (Ok::<Expr, &'static str>(a), r),
    ensures
        parse_atom_spec(ts) == (Ok::<Expr, &'static str>(Expr::Not(Box::new(a))), r),
{
}

/// `as type` casts everything of the product read so far, and the product
/// goes on with the cast as its left operand.
pub proof fn law_cast_applies_to_product_so_far(ts: Seq<Token>, acc: Expr, ty: Type)
    requires
        ts.len() >= 2,
        ts[0] == Token::As,
        type_of_token(ts[1]) == Some(ty),
    ensures
        term_tail_spec(ts, acc) == term_tail_spec(ts.skip(2), Expr::Cast(Box::new(acc), ty)),
{
    assert(ts.drop_first().drop_first() =~= ts.skip(2));
}

/// Neither `if` nor `let` in front: `Expr::parse` is `Expr::parse_rel`.
pub proof fn law_parse_is_rel_otherwise(ts: Seq<Token>)
    requires
        first_token(ts) != Some(Token::If),
        first_token(ts) != Some(Token::Let),
    ensures
        parse_spec(ts) == parse_rel_spec(ts),
{
}

/// The errors of `if test then e1 else e2`: an error of the test, of `e1` or
/// of `e2` comes out unchanged, with no partial expression; a missing `then`
/// or `else` is reported as such, its place taken.
pub proof fn law_if_errors(ts: Seq<Token>)
    requires
        first_token(ts) == Some(Token::If),
    ensures
        ({
            let (r1, rest1) = parse_rel_spec(ts.drop_first());
            &&& r1 matches Err(m) ==> parse_spec(ts) == (Err::<Expr, &'static str>(m), rest1)
            &&& r1 is Ok && first_token(rest1) != Some(Token::Then) ==> parse_spec(ts) == (
                Err::<Expr, &'static str>("`then` after `if` predicate"),
                after_first(rest1),
            )
            &&& r1 is Ok && first_token(rest1) == Some(Token::Then) ==> {
                let (r2, rest2) = parse_spec(rest1.drop_first());
                &&& r2 matches Err(m) ==> parse_spec(ts) == (Err::<Expr, &'static str>(m), rest2)
                &&& r2 is Ok && first_token(rest2) != Some(Token::Else) ==> parse_spec(ts) == (
                    Err::<Expr, &'static str>("`else` in `if` expression"),
                    after_first(rest2),
                )
                &&& r2 is Ok && first_token(rest2) == Some(Token::Else) ==> {
                    let (r3, rest3) = parse_spec(rest2.drop_first());
                    r3 matches Err(m) ==> parse_spec(ts) == (Err::<Expr, &'static str>(m), rest3)
                }
            }
        }),
{
    let ts1 = ts.drop_first();
    lemma_rel_suffix(ts1);
    let (r1, rest1) = parse_rel_spec(ts1);
    if r1 is Ok && first_token(rest1) == Some(Token::Then) {
        lemma_parse_suffix(rest1.drop_first());
    }
}

/// The errors of `let name [: type] = value <newline> body`: a missing name,
/// `=` or newline is reported as such, its place taken; an error of the type,
/// of the value or of the body comes out unchanged, with no partial
/// expression.
pub proof fn law_let_errors(ts: Seq<Token>)
    requires
        first_token(ts) == Some(Token::Let),
    ensures
        ({
            let ts1 = ts.drop_first();
            &&& !(first_token(ts1) matches Some(Token::Ident(_))) ==> parse_spec(ts) == (
                Err::<Expr, &'static str>("name for let-binding"),
                after_first(ts1),
            )
            &&& first_token(ts1) matches Some(Token::Ident(_)) ==> {
                let ts2 = ts1.drop_first();
                let (rt, ts3) = if first_token(ts2) == Some(Token::Colon) {
                    parse_type_spec(ts2.drop_first())
                } else {
                    (Ok(Type::Unit), ts2)
                };
                &&& rt matches Err(m) ==> parse_spec(ts) == (Err::<Expr, &'static str>(m), ts3)
                &&& rt is Ok && first_token(ts3) != Some(Token::Eq) ==> parse_spec(ts) == (
                    Err::<Expr, &'static str>("`=` after let-binding name"),
                    after_first(ts3),
                )
                &&& rt is Ok && first_token(ts3) == Some(Token::Eq) ==> {
                    let (rv, ts5) = parse_rel_spec(ts3.drop_first());
                    &&& rv matches Err(m) ==> parse_spec(ts) == (Err::<Expr, &'static str>(m), ts5)
                    &&& rv is Ok && first_token(ts5) != Some(Token::Newline) ==> parse_spec(ts)
                        == (
                        Err::<Expr, &'static str>("`in` after `let` binding"),
                        after_first(ts5),
                    )
                    &&& rv is Ok && first_token(ts5) == Some(Token::Newline) ==> {
                        let (rb, ts6) = parse_spec(ts5.drop_first());
                        rb matches Err(m) ==> parse_spec(ts) == (Err::<Expr, &'static str>(m), ts6)
                    }
                }
            }
        }),
{
    let ts1 = ts.drop_first();
    if let Some(Token::Ident(_)) = first_token(ts1) {
        let ts2 = ts1.drop_first();
        let ts3 = if first_token(ts2) == Some(Token::Colon) {
            parse_type_spec(ts2.drop_first()).1
        } else {
            ts2
        };
        lemma_rel_suffix(ts3.drop_first());
    }
}

} // verus!
