//! Laws saying what each Janus statement form is built from: which parts a
//! statement reads, in which order, and where a block of statements ends.

use vstd::prelude::*;

use crate::expr::{parse_spec, Expr};
use crate::grammar::lemma_parse_suffix;
use crate::janus::{
    is_statement_start, parse_args_spec, parse_block_spec, parse_block_tail_spec,
    parse_decl_spec, parse_indices_spec, parse_lvalue_spec, parse_more_factors_spec,
    parse_stmt_spec, Decl, LValueModel, StmtModel,
};
use crate::value::{parse_term_token_spec, Term};
use crate::janus_grammar::{lemma_block_suffix, lemma_stmt_suffix};
use crate::token::{first_token, Token};

verus! {

/// Only a statement start can begin a statement: wherever a statement parses,
/// its first token is one of the tokens a block looks for before reading one
/// more statement.
pub proof fn law_statement_begins_with_statement_start(ts: Seq<Token>)
    ensures
        parse_stmt_spec(ts).0 is Ok ==> ts.len() > 0 && is_statement_start(ts[0]),
{
}

/// A block goes on wherever a statement parses: after the statements so far,
/// if one more statement parses at `ts`, the block holds it and goes on after
/// it. So a block ends only where no statement begins.
pub proof fn law_block_continues_where_statement_parses(
    ts: Seq<Token>,
    acc: Seq<StmtModel>,
    s: StmtModel,
)
    requires
        parse_stmt_spec(ts).0 == Ok::<StmtModel, &'static str>(s),
    ensures
        parse_block_tail_spec(ts, acc) == parse_block_tail_spec(parse_stmt_spec(ts).1, acc.push(s)),
{
    law_statement_begins_with_statement_start(ts);
    lemma_stmt_suffix(ts);
}

/// A block is its first statement followed by the rest of the block: where a
/// statement `s` parses at `ts` and a block `b` parses right after it, the
/// block at `ts` is `s` then `b`, ending where `b` ends.
pub proof fn law_block_is_statement_then_block(ts: Seq<Token>, s: StmtModel, b: Seq<StmtModel>)
    requires
        parse_stmt_spec(ts).0 == Ok::<StmtModel, &'static str>(s),
        parse_block_spec(parse_stmt_spec(ts).1).0 == Ok::<Seq<StmtModel>, &'static str>(b),
    ensures
        parse_block_spec(ts) == (
            Ok::<Seq<StmtModel>, &'static str>(seq![s] + b),
            parse_block_spec(parse_stmt_spec(ts).1).1,
        ),
{
    let rest = parse_stmt_spec(ts).1;
    law_statement_begins_with_statement_start(ts);
    law_statement_begins_with_statement_start(rest);
    lemma_stmt_suffix(ts);
    let s2 = parse_stmt_spec(rest).0->Ok_0;
    lemma_tail_from_acc(parse_stmt_spec(rest).1, seq![s2], seq![s]);
    assert(seq![s].push(s2) =~= seq![s] + seq![s2]);
    lemma_stmt_suffix(rest);
}

/// The block tail only appends to what it was handed.
proof fn lemma_tail_from_acc(ts: Seq<Token>, acc: Seq<StmtModel>, pre: Seq<StmtModel>)
    ensures
        parse_block_tail_spec(ts, pre + acc) == (
            match parse_block_tail_spec(ts, acc).0 {
                Ok(xs) => Ok::<Seq<StmtModel>, &'static str>(pre + xs),
                Err(e) => Err(e),
            },
            parse_block_tail_spec(ts, acc).1,
        ),
    decreases ts.len(),
{
    if let Some(t) = first_token(ts) {
        if is_statement_start(t) {
            let (r, rest) = parse_stmt_spec(ts);
            if let Ok(s) = r {
                if rest.len() < ts.len() {
                    lemma_tail_from_acc(rest, acc.push(s), pre);
                    assert((pre + acc).push(s) =~= pre + acc.push(s));
                }
            }
        }
    }
}

/// The parts of a `from` loop: after `from p`, an optional `do` block and an
/// optional `loop` block, each present exactly when its keyword comes next and
/// independent of the other, then `until q`. The loop is `From(p, do-block,
/// loop-block, q)` and ends where `q` ends.
pub proof fn law_from_loop_parts(
    ts: Seq<Token>,
    p: Expr,
    fwd: Option<Seq<StmtModel>>,
    bwd: Option<Seq<StmtModel>>,
    q: Expr,
    r1: Seq<Token>,
    r2: Seq<Token>,
    r3: Seq<Token>,
    r4: Seq<Token>,
)
    requires
        first_token(ts) == Some(Token::From),
        parse_spec(ts.drop_first()) == (Ok::<Expr, &'static str>(p), r1),
        match fwd {
            None => first_token(r1) != Some(Token::Do) && r2 == r1,
            Some(b) => first_token(r1) == Some(Token::Do) && parse_block_spec(r1.drop_first()) == (
                Ok::<Seq<StmtModel>, &'static str>(b),
                r2,
            ),
        },
        match bwd {
            None => first_token(r2) != Some(Token::Loop) && r3 == r2,
            Some(b) => first_token(r2) == Some(Token::Loop) && parse_block_spec(r2.drop_first()) == (
                Ok::<Seq<StmtModel>, &'static str>(b),
                r3,
            ),
        },
        first_token(r3) == Some(Token::Until),
        parse_spec(r3.drop_first()) == (Ok::<Expr, &'static str>(q), r4),
    ensures
        parse_stmt_spec(ts) == (Ok::<StmtModel, &'static str>(StmtModel::From(p, fwd, bwd, q)), r4),
{
    lemma_parse_suffix(ts.drop_first());
    if fwd is Some {
        lemma_block_suffix(r1.drop_first());
    }
    if bwd is Some {
        lemma_block_suffix(r2.drop_first());
    }
}

/// The parts of an `if` statement: `if p then` a block, an optional `else`
/// block present exactly when `else` comes next, then `fi q`. The statement is
/// `If(p, then-block, else-block, q)` and ends where `q` ends.
pub proof fn law_if_parts(
    ts: Seq<Token>,
    p: Expr,
    b: Seq<StmtModel>,
    eb: Option<Seq<StmtModel>>,
    q: Expr,
    r1: Seq<Token>,
    r2: Seq<Token>,
    r3: Seq<Token>,
    r4: Seq<Token>,
)
    requires
        first_token(ts) == Some(Token::If),
        parse_spec(ts.drop_first()) == (Ok::<Expr, &'static str>(p), r1),
        first_token(r1) == Some(Token::Then),
        parse_block_spec(r1.drop_first()) == (Ok::<Seq<StmtModel>, &'static str>(b), r2),
        match eb {
            None => first_token(r2) != Some(Token::Else) && r3 == r2,
            Some(e) => first_token(r2) == Some(Token::Else) && parse_block_spec(r2.drop_first()) == (
                Ok::<Seq<StmtModel>, &'static str>(e),
                r3,
            ),
        },
        first_token(r3) == Some(Token::Fi),
        parse_spec(r3.drop_first()) == (Ok::<Expr, &'static str>(q), r4),
    ensures
        parse_stmt_spec(ts) == (Ok::<StmtModel, &'static str>(StmtModel::If(p, b, eb, q)), r4),
{
    lemma_parse_suffix(ts.drop_first());
    lemma_block_suffix(r1.drop_first());
    if eb is Some {
        lemma_block_suffix(r2.drop_first());
    }
}

/// A swap exchanges the two places that are read on either side of `<=>`,
/// each read whole, its indices included: `l <=> r` is `Swap(l, r)` and ends
/// where `r` ends.
pub proof fn law_swap_parts(
    ts: Seq<Token>,
    l: LValueModel,
    r: LValueModel,
    r1: Seq<Token>,
    r2: Seq<Token>,
)
    requires
        parse_lvalue_spec(ts) == (Ok::<LValueModel, &'static str>(l), r1),
        first_token(r1) == Some(Token::Swap),
        parse_lvalue_spec(r1.drop_first()) == (Ok::<LValueModel, &'static str>(r), r2),
    ensures
        parse_stmt_spec(ts) == (Ok::<StmtModel, &'static str>(StmtModel::Swap(l, r)), r2),
{
}

/// An update `l op= e` changes the place `l` by the expression `e` read after
/// the operator: `+=` is `Add`, `-=` is `Sub`, `^=` is `Xor`, and the statement
/// ends where `e` ends.
pub proof fn law_update_parts(ts: Seq<Token>, l: LValueModel, e: Expr, r1: Seq<Token>, r2: Seq<Token>)
    requires
        parse_lvalue_spec(ts) == (Ok::<LValueModel, &'static str>(l), r1),
        parse_spec(r1.drop_first()) == (Ok::<Expr, &'static str>(e), r2),
    ensures
        first_token(r1) == Some(Token::AddAssign) ==> parse_stmt_spec(ts) == (
            Ok::<StmtModel, &'static str>(StmtModel::Add(l, e)),
            r2,
        ),
        first_token(r1) == Some(Token::SubAssign) ==> parse_stmt_spec(ts) == (
            Ok::<StmtModel, &'static str>(StmtModel::Sub(l, e)),
            r2,
        ),
        first_token(r1) == Some(Token::XorAssign) ==> parse_stmt_spec(ts) == (
            Ok::<StmtModel, &'static str>(StmtModel::Xor(l, e)),
            r2,
        ),
{
}

/// A place is its name followed by every index written after it, in order:
/// reading `[e]` appends `e` to the indices read so far and goes on after `]`.
pub proof fn law_index_appends(ts: Seq<Token>, acc: Seq<Expr>, e: Expr, r: Seq<Token>)
    requires
        first_token(ts) == Some(Token::LBracket),
        parse_spec(ts.drop_first()) == (Ok::<Expr, &'static str>(e), r),
        first_token(r) == Some(Token::RBracket),
    ensures
        parse_indices_spec(ts, acc) == parse_indices_spec(r.drop_first(), acc.push(e)),
{
    lemma_parse_suffix(ts.drop_first());
}

/// Indices are only ever added: the indices read start with those handed in.
pub proof fn law_indices_keep_earlier(ts: Seq<Token>, acc: Seq<Expr>)
    ensures
        parse_indices_spec(ts, acc).0 matches Ok(xs) ==> acc.len() <= xs.len() && xs.subrange(
            0,
            acc.len() as int,
        ) == acc,
    decreases ts.len(),
{
    if first_token(ts) == Some(Token::LBracket) {
        let (r, rest) = parse_spec(ts.drop_first());
        if let Ok(ix) = r {
            if first_token(rest) == Some(Token::RBracket) && rest.len() < ts.len() {
                law_indices_keep_earlier(rest.drop_first(), acc.push(ix));
                if let Ok(xs) = parse_indices_spec(ts, acc).0 {
                    assert(xs.subrange(0, acc.len() as int) =~= acc.push(ix).subrange(
                        0,
                        acc.len() as int,
                    ));
                }
            }
        }
    } else {
        assert(acc.subrange(0, acc.len() as int) =~= acc);
    }
}

/// The statement that undoes `s`, for the forms that come in pairs:
/// `local`/`delocal`, `call`/`uncall` and `push`/`pop`.
pub open spec fn inverse_form(s: StmtModel) -> StmtModel {
    match s {
        StmtModel::Local(d, e) => StmtModel::Delocal(d, e),
        StmtModel::Delocal(d, e) => StmtModel::Local(d, e),
        StmtModel::Call(n, a) => StmtModel::Uncall(n, a),
        StmtModel::Uncall(n, a) => StmtModel::Call(n, a),
        StmtModel::Push(f, l) => StmtModel::Pop(f, l),
        StmtModel::Pop(f, l) => StmtModel::Push(f, l),
        other => other,
    }
}

/// The paired forms read the same thing after their keyword: with the
/// keyword replaced by its partner, the same tokens give the partner
/// statement with the same parts, or the same error, and stop at the same
/// place.
pub proof fn law_paired_forms_read_alike(rest: Seq<Token>)
    ensures
        ({
            let l = parse_stmt_spec(seq![Token::Local] + rest);
            let d = parse_stmt_spec(seq![Token::Delocal] + rest);
            l.1 == d.1 && match l.0 {
                Ok(s) => d.0 == Ok::<StmtModel, &'static str>(inverse_form(s)) && s is Local,
                Err(e) => d.0 == Err::<StmtModel, &'static str>(e),
            }
        }),
        ({
            let c = parse_stmt_spec(seq![Token::Call] + rest);
            let u = parse_stmt_spec(seq![Token::Uncall] + rest);
            c.1 == u.1 && match c.0 {
                Ok(s) => u.0 == Ok::<StmtModel, &'static str>(inverse_form(s)) && s is Call,
                Err(e) => u.0 == Err::<StmtModel, &'static str>(e),
            }
        }),
        ({
            let p = parse_stmt_spec(seq![Token::Push] + rest);
            let q = parse_stmt_spec(seq![Token::Pop] + rest);
            p.1 == q.1 && match p.0 {
                Ok(s) => q.0 == Ok::<StmtModel, &'static str>(inverse_form(s)) && s is Push,
                Err(e) => q.0 == Err::<StmtModel, &'static str>(e),
            }
        }),
{
    assert((seq![Token::Local] + rest).drop_first() =~= rest);
    assert((seq![Token::Delocal] + rest).drop_first() =~= rest);
    assert((seq![Token::Call] + rest).drop_first() =~= rest);
    assert((seq![Token::Uncall] + rest).drop_first() =~= rest);
    assert((seq![Token::Push] + rest).drop_first() =~= rest);
    assert((seq![Token::Pop] + rest).drop_first() =~= rest);
}

/// `local` reads a declaration, `=`, and the initial value: where `decl`
/// parses to `d`, `=` follows and an expression `e` after it, `local decl = e`
/// is `Local(d, e)`, ending where `e` ends.
pub proof fn law_local_parts(ts: Seq<Token>, d: Decl, e: Expr, r1: Seq<Token>, r2: Seq<Token>)
    requires
        first_token(ts) == Some(Token::Local),
        parse_decl_spec(ts.drop_first()) == (Ok::<Decl, &'static str>(d), r1),
        first_token(r1) == Some(Token::Eq),
        parse_spec(r1.drop_first()) == (Ok::<Expr, &'static str>(e), r2),
    ensures
        parse_stmt_spec(ts) == (Ok::<StmtModel, &'static str>(StmtModel::Local(d, e)), r2),
{
}

/// `call` reads a procedure's name and its argument list: `call n(args)` is
/// `Call(n, args)` with the arguments as the list reads them.
pub proof fn law_call_parts(ts: Seq<Token>, n: String, args: Seq<Term>, r: Seq<Token>)
    requires
        ts.len() >= 2,
        ts[0] == Token::Call,
        ts[1] == Token::Ident(n),
        parse_args_spec(ts.skip(2)) == (Ok::<Seq<Term>, &'static str>(args), r),
    ensures
        parse_stmt_spec(ts) == (Ok::<StmtModel, &'static str>(StmtModel::Call(n, args)), r),
{
    assert(ts.drop_first().drop_first() =~= ts.skip(2));
}

/// Arguments are read in order and none is dropped: after `, f` the list
/// read so far gains `f` at its end, and the list read always starts with
/// the arguments handed in.
pub proof fn law_arguments_in_order(ts: Seq<Token>, acc: Seq<Term>)
    ensures
        first_token(ts) == Some(Token::Comma) ==> (parse_term_token_spec(ts.drop_first()).0 matches Ok(
            f,
        ) ==> parse_more_factors_spec(ts, acc) == parse_more_factors_spec(
            parse_term_token_spec(ts.drop_first()).1,
            acc.push(f),
        )),
        parse_more_factors_spec(ts, acc).0 matches Ok(xs) ==> acc.len() <= xs.len() && xs.subrange(
            0,
            acc.len() as int,
        ) == acc,
    decreases ts.len(),
{
    if first_token(ts) == Some(Token::Comma) {
        let (r, rest) = parse_term_token_spec(ts.drop_first());
        if let Ok(f) = r {
            law_arguments_in_order(rest, acc.push(f));
            if let Ok(xs) = parse_more_factors_spec(ts, acc).0 {
                assert(xs.subrange(0, acc.len() as int) =~= acc.push(f).subrange(
                    0,
                    acc.len() as int,
                ));
            }
        }
    } else {
        assert(acc.subrange(0, acc.len() as int) =~= acc);
    }
}

} // verus!
