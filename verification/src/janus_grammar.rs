//! Laws of the Janus statement grammar: every parse takes tokens from the
//! front only, and a statement takes at least one. (So the length checks in
//! its spec functions, there only to show that they terminate, always pass.)

use vstd::prelude::*;

use crate::grammar::lemma_parse_suffix;
use crate::janus::{
    expect, parse_args_spec, parse_block_spec, parse_block_tail_spec, parse_call_spec,
    parse_decl_init_spec, parse_decl_spec, parse_format_args_spec, parse_from_spec,
    parse_if_spec, parse_indices_spec, parse_lvalue_spec, parse_more_factors_spec,
    parse_show_spec, parse_stack_args_spec, parse_stmt_spec, parse_string_arg_spec,
    parse_update_spec, StmtModel,
};
use crate::expr::{parse_spec, Expr};
use crate::token::{
    after_first, first_token, lemma_after_first_taken, lemma_taken_from_front_refl,
    lemma_taken_from_front_trans, taken_from_front, Token,
};
use crate::value::{parse_term_token_spec, Term};

verus! {

broadcast use lemma_taken_from_front_trans;

pub proof fn lemma_expect_suffix<A>(ts: Seq<Token>, t: Token, msg: &'static str, x: A)
    ensures
        taken_from_front(ts, expect(ts, t, msg, x).1),
{
    lemma_after_first_taken(ts);
}

pub proof fn lemma_decl_suffix(ts: Seq<Token>)
    ensures
        taken_from_front(ts, parse_decl_spec(ts).1),
{
    lemma_after_first_taken(ts);
    lemma_after_first_taken(after_first(ts));
}

pub proof fn lemma_indices_suffix(ts: Seq<Token>, acc: Seq<Expr>)
    ensures
        taken_from_front(ts, parse_indices_spec(ts, acc).1),
    decreases ts.len(),
{
    lemma_taken_from_front_refl(ts);
    if first_token(ts) == Some(Token::LBracket) {
        lemma_after_first_taken(ts);
        lemma_parse_suffix(ts.drop_first());
        let (r, rest) = parse_spec(ts.drop_first());
        lemma_after_first_taken(rest);
        if let Ok(ix) = r {
            if first_token(rest) == Some(Token::RBracket) {
                lemma_indices_suffix(rest.drop_first(), acc.push(ix));
            }
        }
    }
}

pub proof fn lemma_lvalue_suffix(ts: Seq<Token>)
    ensures
        taken_from_front(ts, parse_lvalue_spec(ts).1),
        ts.len() > 0 ==> parse_lvalue_spec(ts).1.len() < ts.len(),
{
    lemma_after_first_taken(ts);
    if ts.len() > 0 {
        lemma_indices_suffix(ts.drop_first(), Seq::empty());
    }
}

pub proof fn lemma_more_factors_suffix(ts: Seq<Token>, acc: Seq<Term>)
    ensures
        taken_from_front(ts, parse_more_factors_spec(ts, acc).1),
    decreases ts.len(),
{
    lemma_taken_from_front_refl(ts);
    if first_token(ts) == Some(Token::Comma) {
        lemma_after_first_taken(ts);
        lemma_after_first_taken(ts.drop_first());
        let (r, rest) = parse_term_token_spec(ts.drop_first());
        if let Ok(f) = r {
            lemma_more_factors_suffix(rest, acc.push(f));
        }
    }
}

pub proof fn lemma_args_suffix(ts: Seq<Token>)
    ensures
        taken_from_front(ts, parse_args_spec(ts).1),
{
    lemma_after_first_taken(ts);
    if first_token(ts) == Some(Token::LParen) {
        let ts1 = ts.drop_first();
        lemma_taken_from_front_refl(ts1);
        lemma_after_first_taken(ts1);
        let (r0, rest0) = parse_term_token_spec(ts1);
        if let Ok(f) = r0 {
            lemma_more_factors_suffix(rest0, seq![f]);
        }
        let ts2 = parse_args_spec(ts).1;
        let mid = if first_token(ts1) == Some(Token::RParen) {
            ts1
        } else {
            match r0 {
                Err(_) => rest0,
                Ok(f) => parse_more_factors_spec(rest0, seq![f]).1,
            }
        };
        lemma_after_first_taken(mid);
    }
}

pub proof fn lemma_call_suffix(ts: Seq<Token>)
    ensures
        taken_from_front(ts, parse_call_spec(ts).1),
{
    lemma_after_first_taken(ts);
    if ts.len() > 0 {
        lemma_args_suffix(ts.drop_first());
    }
}

pub proof fn lemma_string_arg_suffix(ts: Seq<Token>)
    ensures
        taken_from_front(ts, parse_string_arg_spec(ts).1),
{
    lemma_after_first_taken(ts);
    if ts.len() > 0 {
        lemma_after_first_taken(ts.drop_first());
        lemma_after_first_taken(after_first(ts.drop_first()));
    }
}

pub proof fn lemma_format_args_suffix(ts: Seq<Token>)
    ensures
        taken_from_front(ts, parse_format_args_spec(ts).1),
{
    lemma_after_first_taken(ts);
    if ts.len() > 0 {
        let ts1 = ts.drop_first();
        lemma_after_first_taken(ts1);
        lemma_more_factors_suffix(after_first(ts1), Seq::empty());
        lemma_after_first_taken(parse_more_factors_spec(after_first(ts1), Seq::empty()).1);
    }
}

pub proof fn lemma_show_suffix(ts: Seq<Token>)
    ensures
        taken_from_front(ts, parse_show_spec(ts).1),
{
    lemma_after_first_taken(ts);
    if ts.len() > 0 {
        lemma_lvalue_suffix(ts.drop_first());
        lemma_after_first_taken(parse_lvalue_spec(ts.drop_first()).1);
    }
}

pub proof fn lemma_stack_args_suffix(ts: Seq<Token>)
    ensures
        taken_from_front(ts, parse_stack_args_spec(ts).1),
{
    lemma_after_first_taken(ts);
    if ts.len() > 0 {
        let ts0 = ts.drop_first();
        lemma_after_first_taken(ts0);
        let ts1 = parse_term_token_spec(ts0).1;
        lemma_after_first_taken(ts1);
        if ts1.len() > 0 {
            lemma_lvalue_suffix(ts1.drop_first());
            lemma_after_first_taken(parse_lvalue_spec(ts1.drop_first()).1);
        }
    }
}

pub proof fn lemma_decl_init_suffix(ts: Seq<Token>)
    ensures
        taken_from_front(ts, parse_decl_init_spec(ts).1),
{
    lemma_decl_suffix(ts);
    let ts1 = parse_decl_spec(ts).1;
    lemma_after_first_taken(ts1);
    if ts1.len() > 0 {
        lemma_parse_suffix(ts1.drop_first());
    }
}

pub proof fn lemma_update_suffix(ts: Seq<Token>)
    ensures
        taken_from_front(ts, parse_update_spec(ts).1),
        ts.len() > 0 ==> parse_update_spec(ts).1.len() < ts.len(),
{
    lemma_lvalue_suffix(ts);
    let ts1 = parse_lvalue_spec(ts).1;
    lemma_after_first_taken(ts1);
    if ts1.len() > 0 {
        lemma_lvalue_suffix(ts1.drop_first());
        lemma_parse_suffix(ts1.drop_first());
    }
}

/// A statement is taken from the front of the stream, and takes at least
/// one token.
pub proof fn lemma_stmt_suffix(ts: Seq<Token>)
    ensures
        taken_from_front(ts, parse_stmt_spec(ts).1),
        ts.len() > 0 ==> parse_stmt_spec(ts).1.len() < ts.len(),
    decreases ts.len(), 2nat,
{
    lemma_after_first_taken(ts);
    if ts.len() > 0 {
        let ts1 = ts.drop_first();
        match first_token(ts) {
            Some(Token::Ident(_)) => lemma_update_suffix(ts),
            Some(Token::Local) => lemma_decl_init_suffix(ts1),
            Some(Token::Delocal) => lemma_decl_init_suffix(ts1),
            Some(Token::From) => lemma_from_suffix(ts),
            Some(Token::If) => lemma_if_suffix(ts),
            Some(Token::Call) => lemma_call_suffix(ts1),
            Some(Token::Uncall) => lemma_call_suffix(ts1),
            Some(Token::Print) => lemma_string_arg_suffix(ts1),
            Some(Token::Error) => lemma_string_arg_suffix(ts1),
            Some(Token::Printf) => lemma_format_args_suffix(ts1),
            Some(Token::Show) => lemma_show_suffix(ts1),
            Some(Token::Pop) => lemma_stack_args_suffix(ts1),
            Some(Token::Push) => lemma_stack_args_suffix(ts1),
            _ => {},
        }
    }
}

#[verifier::spinoff_prover]
#[verifier::rlimit(50)]
pub proof fn lemma_from_suffix(ts: Seq<Token>)
    requires
        ts.len() > 0,
    ensures
        taken_from_front(ts.drop_first(), parse_from_spec(ts).1),
    decreases ts.len(), 1nat,
{
    let ts1 = ts.drop_first();
    lemma_parse_suffix(ts1);
    let (rp, ts2) = parse_spec(ts1);
    if rp is Ok {
        lemma_after_first_taken(ts2);
        lemma_taken_from_front_refl(ts2);
        if first_token(ts2) == Some(Token::Do) {
            lemma_block_suffix(ts2.drop_first());
        }
        let ts3 = if first_token(ts2) == Some(Token::Do) {
            parse_block_spec(ts2.drop_first()).1
        } else {
            ts2
        };
        lemma_after_first_taken(ts3);
        lemma_taken_from_front_refl(ts3);
        if first_token(ts3) == Some(Token::Loop) {
            lemma_block_suffix(ts3.drop_first());
        }
        let ts4 = if first_token(ts3) == Some(Token::Loop) {
            parse_block_spec(ts3.drop_first()).1
        } else {
            ts3
        };
        lemma_after_first_taken(ts4);
        if first_token(ts4) == Some(Token::Until) {
            lemma_parse_suffix(ts4.drop_first());
        }
    }
}

pub proof fn lemma_if_suffix(ts: Seq<Token>)
    requires
        ts.len() > 0,
    ensures
        taken_from_front(ts.drop_first(), parse_if_spec(ts).1),
    decreases ts.len(), 1nat,
{
    let ts1 = ts.drop_first();
    lemma_parse_suffix(ts1);
    let (rp, ts2) = parse_spec(ts1);
    lemma_after_first_taken(ts2);
    if rp is Ok && first_token(ts2) == Some(Token::Then) {
        lemma_block_suffix(ts2.drop_first());
        let (rb, ts3) = parse_block_spec(ts2.drop_first());
        lemma_after_first_taken(ts3);
        lemma_taken_from_front_refl(ts3);
        if rb is Ok {
            if first_token(ts3) == Some(Token::Else) {
                lemma_block_suffix(ts3.drop_first());
            }
            let ts4 = if first_token(ts3) == Some(Token::Else) {
                parse_block_spec(ts3.drop_first()).1
            } else {
                ts3
            };
            lemma_after_first_taken(ts4);
            if first_token(ts4) == Some(Token::Fi) {
                lemma_parse_suffix(ts4.drop_first());
            }
        }
    }
}

pub proof fn lemma_block_suffix(ts: Seq<Token>)
    ensures
        taken_from_front(ts, parse_block_spec(ts).1),
    decreases ts.len(), 4nat,
{
    lemma_stmt_suffix(ts);
    let (r, rest) = parse_stmt_spec(ts);
    if let Ok(s) = r {
        lemma_block_tail_suffix(rest, seq![s]);
    }
}

pub proof fn lemma_block_tail_suffix(ts: Seq<Token>, acc: Seq<StmtModel>)
    ensures
        taken_from_front(ts, parse_block_tail_spec(ts, acc).1),
    decreases ts.len(), 3nat,
{
    lemma_taken_from_front_refl(ts);
    if let Some(t) = first_token(ts) {
        lemma_stmt_suffix(ts);
        let (r, rest) = parse_stmt_spec(ts);
        if let Ok(s) = r {
            lemma_block_tail_suffix(rest, acc.push(s));
        }
    }
}

} // verus!
