//! The statements of the reversible language Janus, built on the expressions
//! of this crate, and their parser.
//!
//! ```text
//! stmt   -> 'skip'
//!         | 'local' decl '=' expr | 'delocal' decl '=' expr
//!         | lvalue '<=>' lvalue
//!         | lvalue ('+=' | '-=' | '^=') expr
//!         | 'from' expr ['do' stmt+] ['loop' stmt+] 'until' expr
//!         | 'if' expr 'then' stmt+ ['else' stmt+] 'fi' expr
//!         | ('call' | 'uncall') ident '(' [factor {',' factor}] ')'
//!         | 'print' '(' string ')' | 'error' '(' string ')'
//!         | 'printf' '(' string {',' factor} ')'
//!         | 'show' '(' lvalue ')'
//!         | ('pop' | 'push') '(' factor ',' lvalue ')'
//! decl   -> type ident
//! lvalue -> ident {'[' expr ']'}
//! ```
//!
//! The length checks in the spec functions below are there only so that the
//! definitions are seen to terminate; `crate::janus_grammar` shows that they
//! never fail.

use vstd::prelude::*;

use crate::expr::{parse_spec, Expr};
use crate::token::{
    after_first, first_token, lemma_taken_from_front_refl, lemma_taken_from_front_trans,
    taken_from_front, Token, Tokens,
};
use crate::value::{parse_term_token_spec, parse_type_spec, ParseResult, Term, Type};

verus! {

broadcast use lemma_taken_from_front_trans;

/// A sequence of statements.
pub type Block = Vec<Statement>;

/// A predicate: an expression expected to give a boolean.
pub type Pred = Expr;

/// An argument of a call: a literal or a variable.
pub type Factor = Term;

/// A declaration of a local variable: its type and its name.
#[derive(Debug, PartialEq)]
pub struct Decl {
    pub typ: Type,
    pub name: String,
}

/// A place that can be assigned: a variable, indexed zero or more times.
#[derive(Debug, PartialEq)]
pub struct LValue {
    pub name: String,
    pub indices: Vec<Expr>,
}

/// A statement.
#[derive(Debug, PartialEq)]
pub enum Statement {
    Skip,
    Local(Decl, Expr),
    Delocal(Decl, Expr),
    Add(LValue, Expr),
    Sub(LValue, Expr),
    Xor(LValue, Expr),
    Swap(LValue, LValue),
    If(Pred, Block, Option<Block>, Pred),
    From(Pred, Option<Block>, Option<Block>, Pred),
    Call(String, Vec<Factor>),
    Uncall(String, Vec<Factor>),
    // built-ins
    Print(String),
    Printf(String, Vec<Factor>),
    Error(String),
    Show(LValue),
    Pop(Factor, LValue),
    Push(Factor, LValue),
}

/// A place, with its indices as a sequence.
pub struct LValueModel {
    pub name: String,
    pub indices: Seq<Expr>,
}

impl View for LValue {
    type V = LValueModel;

    open spec fn view(&self) -> LValueModel {
        LValueModel { name: self.name, indices: self.indices@ }
    }
}

/// A statement, with its blocks and argument lists as sequences.
pub enum StmtModel {
    Skip,
    Local(Decl, Expr),
    Delocal(Decl, Expr),
    Add(LValueModel, Expr),
    Sub(LValueModel, Expr),
    Xor(LValueModel, Expr),
    Swap(LValueModel, LValueModel),
    If(Expr, Seq<StmtModel>, Option<Seq<StmtModel>>, Expr),
    From(Expr, Option<Seq<StmtModel>>, Option<Seq<StmtModel>>, Expr),
    Call(String, Seq<Term>),
    Uncall(String, Seq<Term>),
    Print(String),
    Printf(String, Seq<Term>),
    Error(String),
    Show(LValueModel),
    Pop(Term, LValueModel),
    Push(Term, LValueModel),
}

pub open spec fn stmt_model(s: Statement) -> StmtModel
    decreases s,
{
    match s {
        Statement::Skip => StmtModel::Skip,
        Statement::Local(d, e) => StmtModel::Local(d, e),
        Statement::Delocal(d, e) => StmtModel::Delocal(d, e),
        Statement::Add(l, e) => StmtModel::Add(l@, e),
        Statement::Sub(l, e) => StmtModel::Sub(l@, e),
        Statement::Xor(l, e) => StmtModel::Xor(l@, e),
        Statement::Swap(l, r) => StmtModel::Swap(l@, r@),
        Statement::If(p, b, ob, q) => StmtModel::If(
            p,
            block_model(b@),
            match ob {
                Some(b2) => Some(block_model(b2@)),
                None => None,
            },
            q,
        ),
        Statement::From(p, ob1, ob2, q) => StmtModel::From(
            p,
            match ob1 {
                Some(b) => Some(block_model(b@)),
                None => None,
            },
            match ob2 {
                Some(b) => Some(block_model(b@)),
                None => None,
            },
            q,
        ),
        Statement::Call(n, args) => StmtModel::Call(n, args@),
        Statement::Uncall(n, args) => StmtModel::Uncall(n, args@),
        Statement::Print(s) => StmtModel::Print(s),
        Statement::Printf(s, args) => StmtModel::Printf(s, args@),
        Statement::Error(s) => StmtModel::Error(s),
        Statement::Show(l) => StmtModel::Show(l@),
        Statement::Pop(f, l) => StmtModel::Pop(f, l@),
        Statement::Push(f, l) => StmtModel::Push(f, l@),
    }
}

pub open spec fn block_model(b: Seq<Statement>) -> Seq<StmtModel>
    decreases b,
{
    if b.len() == 0 {
        Seq::empty()
    } else {
        block_model(b.subrange(0, b.len() - 1)).push(stmt_model(b[b.len() - 1]))
    }
}

/// The result of a parse that takes one expected token: `x` if the next token
/// is `t`, else the error `msg`; the token is taken either way.
pub open spec fn expect<A>(ts: Seq<Token>, t: Token, msg: &'static str, x: A) -> (
    ParseResult<A>,
    Seq<Token>,
) {
    if first_token(ts) == Some(t) {
        (Ok(x), after_first(ts))
    } else {
        (Err(msg), after_first(ts))
    }
}

/// `decl -> type ident`
pub open spec fn parse_decl_spec(ts: Seq<Token>) -> (ParseResult<Decl>, Seq<Token>) {
    let (rt, ts1) = parse_type_spec(ts);
    match rt {
        Err(e) => (Err(e), ts1),
        Ok(typ) => match first_token(ts1) {
            Some(Token::Ident(name)) => (Ok(Decl { typ, name }), after_first(ts1)),
            _ => (Err("name in declaration"), after_first(ts1)),
        },
    }
}

/// `{'[' expr ']'}`, appended to `acc`.
pub open spec fn parse_indices_spec(ts: Seq<Token>, acc: Seq<Expr>) -> (
    ParseResult<Seq<Expr>>,
    Seq<Token>,
)
    decreases ts.len(),
{
    if first_token(ts) != Some(Token::LBracket) {
        (Ok(acc), ts)
    } else {
        let (r, rest) = parse_spec(ts.drop_first());
        match r {
            Err(e) => (Err(e), rest),
            Ok(ix) => if first_token(rest) != Some(Token::RBracket) {
                (Err("`]` after index"), after_first(rest))
            } else if rest.len() >= ts.len() {
                (Err("`]` after index"), rest)
            } else {
                parse_indices_spec(rest.drop_first(), acc.push(ix))
            },
        }
    }
}

/// `lvalue -> ident {'[' expr ']'}`
pub open spec fn parse_lvalue_spec(ts: Seq<Token>) -> (ParseResult<LValueModel>, Seq<Token>) {
    match first_token(ts) {
        Some(Token::Ident(name)) => {
            let (r, rest) = parse_indices_spec(ts.drop_first(), Seq::empty());
            match r {
                Err(e) => (Err(e), rest),
                Ok(indices) => (Ok(LValueModel { name, indices }), rest),
            }
        },
        _ => (Err("name of variable"), after_first(ts)),
    }
}

pub open spec fn lvalue_result(r: ParseResult<LValue>) -> ParseResult<LValueModel> {
    match r {
        Ok(l) => Ok(l@),
        Err(e) => Err(e),
    }
}

/// `{',' factor}`, appended to `acc`.
pub open spec fn parse_more_factors_spec(ts: Seq<Token>, acc: Seq<Term>) -> (
    ParseResult<Seq<Term>>,
    Seq<Token>,
)
    decreases ts.len(),
{
    if first_token(ts) != Some(Token::Comma) {
        (Ok(acc), ts)
    } else {
        let (r, rest) = parse_term_token_spec(ts.drop_first());
        match r {
            Err(e) => (Err(e), rest),
            Ok(f) => parse_more_factors_spec(rest, acc.push(f)),
        }
    }
}

/// `'(' [factor {',' factor}] ')'`
pub open spec fn parse_args_spec(ts: Seq<Token>) -> (ParseResult<Seq<Term>>, Seq<Token>) {
    if first_token(ts) != Some(Token::LParen) {
        (Err("`(` before arguments"), after_first(ts))
    } else {
        let ts1 = ts.drop_first();
        let (r, ts2) = if first_token(ts1) == Some(Token::RParen) {
            (Ok(Seq::empty()), ts1)
        } else {
            let (r0, rest0) = parse_term_token_spec(ts1);
            match r0 {
                Err(e) => (Err(e), rest0),
                Ok(f) => parse_more_factors_spec(rest0, seq![f]),
            }
        };
        match r {
            Err(e) => (Err(e), ts2),
            Ok(args) => expect(ts2, Token::RParen, "`)` after arguments", args),
        }
    }
}

/// `ident '(' [factor {',' factor}] ')'`
pub open spec fn parse_call_spec(ts: Seq<Token>) -> (ParseResult<(String, Seq<Term>)>, Seq<Token>) {
    match first_token(ts) {
        Some(Token::Ident(name)) => {
            let (r, rest) = parse_args_spec(ts.drop_first());
            match r {
                Err(e) => (Err(e), rest),
                Ok(args) => (Ok((name, args)), rest),
            }
        },
        _ => (Err("name of procedure"), after_first(ts)),
    }
}

/// `'(' string ')'`
pub open spec fn parse_string_arg_spec(ts: Seq<Token>) -> (ParseResult<String>, Seq<Token>) {
    if first_token(ts) != Some(Token::LParen) {
        (Err("`(` before string"), after_first(ts))
    } else {
        let ts1 = ts.drop_first();
        match first_token(ts1) {
            Some(Token::Str(text)) => expect(
                after_first(ts1),
                Token::RParen,
                "`)` after string",
                text,
            ),
            _ => (Err("string"), after_first(ts1)),
        }
    }
}

/// `'(' string {',' factor} ')'`
pub open spec fn parse_format_args_spec(ts: Seq<Token>) -> (
    ParseResult<(String, Seq<Term>)>,
    Seq<Token>,
) {
    if first_token(ts) != Some(Token::LParen) {
        (Err("`(` before string"), after_first(ts))
    } else {
        let ts1 = ts.drop_first();
        match first_token(ts1) {
            Some(Token::Str(text)) => {
                let (r, ts2) = parse_more_factors_spec(after_first(ts1), Seq::empty());
                match r {
                    Err(e) => (Err(e), ts2),
                    Ok(args) => expect(ts2, Token::RParen, "`)` after arguments", (text, args)),
                }
            },
            _ => (Err("string"), after_first(ts1)),
        }
    }
}

/// `'(' lvalue ')'`
pub open spec fn parse_show_spec(ts: Seq<Token>) -> (ParseResult<LValueModel>, Seq<Token>) {
    if first_token(ts) != Some(Token::LParen) {
        (Err("`(` before variable"), after_first(ts))
    } else {
        let (r, rest) = parse_lvalue_spec(ts.drop_first());
        match r {
            Err(e) => (Err(e), rest),
            Ok(l) => expect(rest, Token::RParen, "`)` after variable", l),
        }
    }
}

/// `'(' factor ',' lvalue ')'`
pub open spec fn parse_stack_args_spec(ts: Seq<Token>) -> (
    ParseResult<(Term, LValueModel)>,
    Seq<Token>,
) {
    if first_token(ts) != Some(Token::LParen) {
        (Err("`(` before arguments"), after_first(ts))
    } else {
        let (rf, ts1) = parse_term_token_spec(ts.drop_first());
        match rf {
            Err(e) => (Err(e), ts1),
            Ok(f) => if first_token(ts1) != Some(Token::Comma) {
                (Err("`,` between arguments"), after_first(ts1))
            } else {
                let (rl, ts2) = parse_lvalue_spec(ts1.drop_first());
                match rl {
                    Err(e) => (Err(e), ts2),
                    Ok(l) => expect(ts2, Token::RParen, "`)` after arguments", (f, l)),
                }
            },
        }
    }
}

/// `decl '=' expr`
pub open spec fn parse_decl_init_spec(ts: Seq<Token>) -> (ParseResult<(Decl, Expr)>, Seq<Token>) {
    let (rd, ts1) = parse_decl_spec(ts);
    match rd {
        Err(e) => (Err(e), ts1),
        Ok(d) => if first_token(ts1) != Some(Token::Eq) {
            (Err("`=` after declaration"), after_first(ts1))
        } else {
            let (re, ts2) = parse_spec(ts1.drop_first());
            match re {
                Err(e) => (Err(e), ts2),
                Ok(e) => (Ok((d, e)), ts2),
            }
        },
    }
}

/// A statement that starts with a place: a swap or an update.
pub open spec fn parse_update_spec(ts: Seq<Token>) -> (ParseResult<StmtModel>, Seq<Token>) {
    let (rl, ts1) = parse_lvalue_spec(ts);
    match rl {
        Err(e) => (Err(e), ts1),
        Ok(l) => match first_token(ts1) {
            Some(Token::Swap) => {
                let (rr, ts2) = parse_lvalue_spec(ts1.drop_first());
                match rr {
                    Err(e) => (Err(e), ts2),
                    Ok(r) => (Ok(StmtModel::Swap(l, r)), ts2),
                }
            },
            Some(Token::AddAssign) => {
                let (re, ts2) = parse_spec(ts1.drop_first());
                match re {
                    Err(e) => (Err(e), ts2),
                    Ok(e) => (Ok(StmtModel::Add(l, e)), ts2),
                }
            },
            Some(Token::SubAssign) => {
                let (re, ts2) = parse_spec(ts1.drop_first());
                match re {
                    Err(e) => (Err(e), ts2),
                    Ok(e) => (Ok(StmtModel::Sub(l, e)), ts2),
                }
            },
            Some(Token::XorAssign) => {
                let (re, ts2) = parse_spec(ts1.drop_first());
                match re {
                    Err(e) => (Err(e), ts2),
                    Ok(e) => (Ok(StmtModel::Xor(l, e)), ts2),
                }
            },
            _ => (Err("`<=>`, `+=`, `-=` or `^=` after variable"), after_first(ts1)),
        },
    }
}

impl Decl {
    /// Parses `type ident`.
    pub fn parse(tokens: &mut Tokens) -> (res: ParseResult<Decl>)
        ensures
            (res, final(tokens)@) == parse_decl_spec(old(tokens)@),
            taken_from_front(old(tokens)@, final(tokens)@),
    {
        let typ = Type::parse(tokens)?;
        match tokens.next() {
            Some(Token::Ident(name)) => Ok(Decl { typ, name }),
            _ => Err("name in declaration"),
        }
    }
}

impl LValue {
    /// Parses a variable followed by any number of `[index]`.
    pub fn parse(tokens: &mut Tokens) -> (res: ParseResult<LValue>)
        ensures
            (lvalue_result(res), final(tokens)@) == parse_lvalue_spec(old(tokens)@),
            taken_from_front(old(tokens)@, final(tokens)@),
            res is Ok ==> final(tokens)@.len() < old(tokens)@.len(),
    {
        let name = match tokens.next() {
            Some(Token::Ident(name)) => name,
            _ => return Err("name of variable"),
        };
        let ghost after_name = tokens@;
        let mut indices: Vec<Expr> = Vec::new();
        proof {
            lemma_taken_from_front_refl(after_name);
            assert(indices@ =~= Seq::<Expr>::empty());
        }
        loop
            invariant
                taken_from_front(old(tokens)@, after_name),
                taken_from_front(after_name, tokens@),
                parse_lvalue_spec(old(tokens)@) == match parse_indices_spec(
                    after_name,
                    Seq::empty(),
                ) {
                    (Ok(ix), rest) => (
                        Ok::<LValueModel, &'static str>(LValueModel { name, indices: ix }),
                        rest,
                    ),
                    (Err(e), rest) => (Err(e), rest),
                },
                parse_indices_spec(tokens@, indices@) == parse_indices_spec(
                    after_name,
                    Seq::empty(),
                ),
            ensures
                taken_from_front(after_name, tokens@),
                (Ok::<Seq<Expr>, &'static str>(indices@), tokens@) == parse_indices_spec(
                    after_name,
                    Seq::empty(),
                ),
            decreases tokens@.len(),
        {
            if !matches!(tokens.peek(), Some(Token::LBracket)) {
                break;
            }
            tokens.next();
            let ix = Expr::parse(tokens)?;
            match tokens.next() {
                Some(Token::RBracket) => {},
                _ => return Err("`]` after index"),
            }
            indices.push(ix);
        }
        Ok(LValue { name, indices })
    }
}

/// Parses `{',' factor}`.
fn parse_more_factors(tokens: &mut Tokens, args: &mut Vec<Factor>) -> (res: ParseResult<()>)
    ensures
        match parse_more_factors_spec(old(tokens)@, old(args)@) {
            (Ok(all), rest) => res is Ok && final(args)@ == all && final(tokens)@ == rest,
            (Err(e), rest) => res == Err::<(), &'static str>(e) && final(tokens)@ == rest,
        },
        taken_from_front(old(tokens)@, final(tokens)@),
{
    proof {
        lemma_taken_from_front_refl(old(tokens)@);
    }
    loop
        invariant
            taken_from_front(old(tokens)@, tokens@),
            parse_more_factors_spec(tokens@, args@) == parse_more_factors_spec(
                old(tokens)@,
                old(args)@,
            ),
        ensures
            taken_from_front(old(tokens)@, tokens@),
            (Ok::<Seq<Term>, &'static str>(args@), tokens@) == parse_more_factors_spec(
                old(tokens)@,
                old(args)@,
            ),
        decreases tokens@.len(),
    {
        if !matches!(tokens.peek(), Some(Token::Comma)) {
            break;
        }
        tokens.next();
        let f = Term::parse(tokens)?;
        args.push(f);
    }
    Ok(())
}

/// Parses `'(' [factor {',' factor}] ')'`.
fn parse_args(tokens: &mut Tokens) -> (res: ParseResult<Vec<Factor>>)
    ensures
        match parse_args_spec(old(tokens)@) {
            (Ok(args), rest) => res matches Ok(v) && v@ == args && final(tokens)@ == rest,
            (Err(e), rest) => res == Err::<Vec<Factor>, &'static str>(e) && final(tokens)@
                == rest,
        },
        taken_from_front(old(tokens)@, final(tokens)@),
{
    match tokens.next() {
        Some(Token::LParen) => {},
        _ => return Err("`(` before arguments"),
    }
    let mut args: Vec<Factor> = Vec::new();
    if !matches!(tokens.peek(), Some(Token::RParen)) {
        let f = Term::parse(tokens)?;
        args.push(f);
        proof {
            assert(args@ =~= seq![f]);
        }
        parse_more_factors(tokens, &mut args)?;
    } else {
        proof {
            assert(args@ =~= Seq::<Term>::empty());
        }
    }
    match tokens.next() {
        Some(Token::RParen) => Ok(args),
        _ => Err("`)` after arguments"),
    }
}

/// Parses `ident '(' [factor {',' factor}] ')'`.
fn parse_call(tokens: &mut Tokens) -> (res: ParseResult<(String, Vec<Factor>)>)
    ensures
        match parse_call_spec(old(tokens)@) {
            (Ok(call), rest) => res matches Ok(c) && c.0 == call.0 && c.1@ == call.1
                && final(tokens)@ == rest,
            (Err(e), rest) => res == Err::<(String, Vec<Factor>), &'static str>(e)
                && final(tokens)@ == rest,
        },
        taken_from_front(old(tokens)@, final(tokens)@),
{
    let name = match tokens.next() {
        Some(Token::Ident(name)) => name,
        _ => return Err("name of procedure"),
    };
    let args = parse_args(tokens)?;
    Ok((name, args))
}

/// Parses `'(' string ')'`.
fn parse_string_arg(tokens: &mut Tokens) -> (res: ParseResult<String>)
    ensures
        (res, final(tokens)@) == parse_string_arg_spec(old(tokens)@),
        taken_from_front(old(tokens)@, final(tokens)@),
{
    match tokens.next() {
        Some(Token::LParen) => {},
        _ => return Err("`(` before string"),
    }
    let text = match tokens.next() {
        Some(Token::Str(text)) => text,
        _ => return Err("string"),
    };
    match tokens.next() {
        Some(Token::RParen) => Ok(text),
        _ => Err("`)` after string"),
    }
}

/// Parses `'(' string {',' factor} ')'`.
fn parse_format_args(tokens: &mut Tokens) -> (res: ParseResult<(String, Vec<Factor>)>)
    ensures
        match parse_format_args_spec(old(tokens)@) {
            (Ok(call), rest) => res matches Ok(c) && c.0 == call.0 && c.1@ == call.1
                && final(tokens)@ == rest,
            (Err(e), rest) => res == Err::<(String, Vec<Factor>), &'static str>(e)
                && final(tokens)@ == rest,
        },
        taken_from_front(old(tokens)@, final(tokens)@),
{
    match tokens.next() {
        Some(Token::LParen) => {},
        _ => return Err("`(` before string"),
    }
    let text = match tokens.next() {
        Some(Token::Str(text)) => text,
        _ => return Err("string"),
    };
    let mut args: Vec<Factor> = Vec::new();
    proof {
        assert(args@ =~= Seq::<Term>::empty());
    }
    parse_more_factors(tokens, &mut args)?;
    match tokens.next() {
        Some(Token::RParen) => Ok((text, args)),
        _ => Err("`)` after arguments"),
    }
}

/// Parses `'(' lvalue ')'`.
fn parse_show(tokens: &mut Tokens) -> (res: ParseResult<LValue>)
    ensures
        (lvalue_result(res), final(tokens)@) == parse_show_spec(old(tokens)@),
        taken_from_front(old(tokens)@, final(tokens)@),
{
    match tokens.next() {
        Some(Token::LParen) => {},
        _ => return Err("`(` before variable"),
    }
    let l = LValue::parse(tokens)?;
    match tokens.next() {
        Some(Token::RParen) => Ok(l),
        _ => Err("`)` after variable"),
    }
}

/// Parses `'(' factor ',' lvalue ')'`.
fn parse_stack_args(tokens: &mut Tokens) -> (res: ParseResult<(Factor, LValue)>)
    ensures
        match parse_stack_args_spec(old(tokens)@) {
            (Ok(p), rest) => res matches Ok(q) && q.0 == p.0 && q.1@ == p.1 && final(tokens)@
                == rest,
            (Err(e), rest) => res == Err::<(Factor, LValue), &'static str>(e) && final(tokens)@
                == rest,
        },
        taken_from_front(old(tokens)@, final(tokens)@),
{
    match tokens.next() {
        Some(Token::LParen) => {},
        _ => return Err("`(` before arguments"),
    }
    let f = Term::parse(tokens)?;
    match tokens.next() {
        Some(Token::Comma) => {},
        _ => return Err("`,` between arguments"),
    }
    let l = LValue::parse(tokens)?;
    match tokens.next() {
        Some(Token::RParen) => Ok((f, l)),
        _ => Err("`)` after arguments"),
    }
}

/// Parses `decl '=' expr`.
fn parse_decl_init(tokens: &mut Tokens) -> (res: ParseResult<(Decl, Expr)>)
    ensures
        (res, final(tokens)@) == parse_decl_init_spec(old(tokens)@),
        taken_from_front(old(tokens)@, final(tokens)@),
{
    let d = Decl::parse(tokens)?;
    match tokens.next() {
        Some(Token::Eq) => {},
        _ => return Err("`=` after declaration"),
    }
    let e = Expr::parse(tokens)?;
    Ok((d, e))
}

pub open spec fn stmt_result(r: ParseResult<Statement>) -> ParseResult<StmtModel> {
    match r {
        Ok(s) => Ok(stmt_model(s)),
        Err(e) => Err(e),
    }
}

/// Parses a swap or an update: a statement that starts with a place.
fn parse_update(tokens: &mut Tokens) -> (res: ParseResult<Statement>)
    ensures
        (stmt_result(res), final(tokens)@) == parse_update_spec(old(tokens)@),
        taken_from_front(old(tokens)@, final(tokens)@),
        res is Ok ==> final(tokens)@.len() < old(tokens)@.len(),
{
    let l = LValue::parse(tokens)?;
    match tokens.next() {
        Some(Token::Swap) => {
            let r = LValue::parse(tokens)?;
            Ok(Statement::Swap(l, r))
        },
        Some(Token::AddAssign) => {
            let e = Expr::parse(tokens)?;
            Ok(Statement::Add(l, e))
        },
        Some(Token::SubAssign) => {
            let e = Expr::parse(tokens)?;
            Ok(Statement::Sub(l, e))
        },
        Some(Token::XorAssign) => {
            let e = Expr::parse(tokens)?;
            Ok(Statement::Xor(l, e))
        },
        _ => Err("`<=>`, `+=`, `-=` or `^=` after variable"),
    }
}

/// The tokens a statement can start with.
pub open spec fn is_statement_start(t: Token) -> bool {
    match t {
        Token::Ident(_) | Token::Skip | Token::Local | Token::Delocal | Token::From | Token::If
        | Token::Call | Token::Uncall | Token::Print | Token::Printf | Token::Error | Token::Show
        | Token::Pop | Token::Push => true,
        _ => false,
    }
}

fn begins_statement(t: Option<&Token>) -> (res: bool)
    ensures
        res == (t matches Some(x) && is_statement_start(*x)),
{
    match t {
        Some(Token::Ident(_)) | Some(Token::Skip) | Some(Token::Local) | Some(Token::Delocal)
        | Some(Token::From) | Some(Token::If) | Some(Token::Call) | Some(Token::Uncall)
        | Some(Token::Print) | Some(Token::Printf) | Some(Token::Error) | Some(Token::Show)
        | Some(Token::Pop) | Some(Token::Push) => true,
        _ => false,
    }
}

/// An optional block, as its model.
pub open spec fn opt_block(r: (ParseResult<Seq<StmtModel>>, Seq<Token>)) -> (
    ParseResult<Option<Seq<StmtModel>>>,
    Seq<Token>,
) {
    match r {
        (Ok(b), rest) => (Ok(Some(b)), rest),
        (Err(e), rest) => (Err(e), rest),
    }
}

/// `Statement::parse`: the result on the token stream `ts`, and what is left of it.
pub open spec fn parse_stmt_spec(ts: Seq<Token>) -> (ParseResult<StmtModel>, Seq<Token>)
    decreases ts.len(), 2nat,
{
    let ts1 = after_first(ts);
    match first_token(ts) {
        Some(Token::Ident(_)) => parse_update_spec(ts),
        Some(Token::Skip) => (Ok(StmtModel::Skip), ts1),
        Some(Token::Local) => match parse_decl_init_spec(ts1) {
            (Ok((d, e)), rest) => (Ok(StmtModel::Local(d, e)), rest),
            (Err(e), rest) => (Err(e), rest),
        },
        Some(Token::Delocal) => match parse_decl_init_spec(ts1) {
            (Ok((d, e)), rest) => (Ok(StmtModel::Delocal(d, e)), rest),
            (Err(e), rest) => (Err(e), rest),
        },
        Some(Token::From) => parse_from_spec(ts),
        Some(Token::If) => parse_if_spec(ts),
        Some(Token::Call) => match parse_call_spec(ts1) {
            (Ok((n, args)), rest) => (Ok(StmtModel::Call(n, args)), rest),
            (Err(e), rest) => (Err(e), rest),
        },
        Some(Token::Uncall) => match parse_call_spec(ts1) {
            (Ok((n, args)), rest) => (Ok(StmtModel::Uncall(n, args)), rest),
            (Err(e), rest) => (Err(e), rest),
        },
        Some(Token::Print) => match parse_string_arg_spec(ts1) {
            (Ok(text), rest) => (Ok(StmtModel::Print(text)), rest),
            (Err(e), rest) => (Err(e), rest),
        },
        Some(Token::Printf) => match parse_format_args_spec(ts1) {
            (Ok((text, args)), rest) => (Ok(StmtModel::Printf(text, args)), rest),
            (Err(e), rest) => (Err(e), rest),
        },
        Some(Token::Error) => match parse_string_arg_spec(ts1) {
            (Ok(text), rest) => (Ok(StmtModel::Error(text)), rest),
            (Err(e), rest) => (Err(e), rest),
        },
        Some(Token::Show) => match parse_show_spec(ts1) {
            (Ok(l), rest) => (Ok(StmtModel::Show(l)), rest),
            (Err(e), rest) => (Err(e), rest),
        },
        Some(Token::Pop) => match parse_stack_args_spec(ts1) {
            (Ok((f, l)), rest) => (Ok(StmtModel::Pop(f, l)), rest),
            (Err(e), rest) => (Err(e), rest),
        },
        Some(Token::Push) => match parse_stack_args_spec(ts1) {
            (Ok((f, l)), rest) => (Ok(StmtModel::Push(f, l)), rest),
            (Err(e), rest) => (Err(e), rest),
        },
        _ => (Err("statement"), ts1),
    }
}

/// `'from' expr ['do' stmt+] ['loop' stmt+] 'until' expr`, the first token
/// being `from`.
pub open spec fn parse_from_spec(ts: Seq<Token>) -> (ParseResult<StmtModel>, Seq<Token>)
    decreases ts.len(), 1nat,
{
    let ts1 = after_first(ts);
    let (rp, ts2) = parse_spec(ts1);
    match rp {
        Err(e) => (Err(e), ts2),
        Ok(p) => if ts2.len() >= ts.len() {
            (Err("statement"), ts2)
        } else {
            let (rdo, ts3) = if first_token(ts2) == Some(Token::Do) {
                opt_block(parse_block_spec(ts2.drop_first()))
            } else {
                (Ok(None), ts2)
            };
            match rdo {
                Err(e) => (Err(e), ts3),
                Ok(forward) => if ts3.len() >= ts.len() {
                    (Err("statement"), ts3)
                } else {
                    let (rlp, ts4) = if first_token(ts3) == Some(Token::Loop) {
                        opt_block(parse_block_spec(ts3.drop_first()))
                    } else {
                        (Ok(None), ts3)
                    };
                    match rlp {
                        Err(e) => (Err(e), ts4),
                        Ok(backward) => if first_token(ts4) != Some(Token::Until) {
                            (Err("`until` in `from` loop"), after_first(ts4))
                        } else {
                            let (rq, ts5) = parse_spec(ts4.drop_first());
                            match rq {
                                Err(e) => (Err(e), ts5),
                                Ok(q) => (Ok(StmtModel::From(p, forward, backward, q)), ts5),
                            }
                        },
                    }
                },
            }
        },
    }

}

/// `'if' expr 'then' stmt+ ['else' stmt+] 'fi' expr`, the first token being `if`.
pub open spec fn parse_if_spec(ts: Seq<Token>) -> (ParseResult<StmtModel>, Seq<Token>)
    decreases ts.len(), 1nat,
{
    let ts1 = after_first(ts);
    let (rp, ts2) = parse_spec(ts1);
    match rp {
        Err(e) => (Err(e), ts2),
        Ok(p) => if first_token(ts2) != Some(Token::Then) {
            (Err("`then` after `if` predicate"), after_first(ts2))
        } else if ts2.len() >= ts.len() {
            (Err("statement"), ts2)
        } else {
            let (rb, ts3) = parse_block_spec(ts2.drop_first());
            match rb {
                Err(e) => (Err(e), ts3),
                Ok(b) => if ts3.len() >= ts.len() {
                    (Err("statement"), ts3)
                } else {
                    let (re, ts4) = if first_token(ts3) == Some(Token::Else) {
                        opt_block(parse_block_spec(ts3.drop_first()))
                    } else {
                        (Ok(None), ts3)
                    };
                    match re {
                        Err(e) => (Err(e), ts4),
                        Ok(eb) => if first_token(ts4) != Some(Token::Fi) {
                            (Err("`fi` after `if` statement"), after_first(ts4))
                        } else {
                            let (rq, ts5) = parse_spec(ts4.drop_first());
                            match rq {
                                Err(e) => (Err(e), ts5),
                                Ok(q) => (Ok(StmtModel::If(p, b, eb, q)), ts5),
                            }
                        },
                    }
                },
            }
        },
    }

}

/// `stmt+`: one statement, then as many more as start there.
pub open spec fn parse_block_spec(ts: Seq<Token>) -> (ParseResult<Seq<StmtModel>>, Seq<Token>)
    decreases ts.len(), 4nat,
{
    let (r, rest) = parse_stmt_spec(ts);
    match r {
        Err(e) => (Err(e), rest),
        Ok(s) => if rest.len() <= ts.len() {
            parse_block_tail_spec(rest, seq![s])
        } else {
            (Ok(seq![s]), rest)
        },
    }
}

/// The further statements of a block, appended to `acc`.
pub open spec fn parse_block_tail_spec(ts: Seq<Token>, acc: Seq<StmtModel>) -> (
    ParseResult<Seq<StmtModel>>,
    Seq<Token>,
)
    decreases ts.len(), 3nat,
{
    match first_token(ts) {
        Some(t) => if is_statement_start(t) {
            let (r, rest) = parse_stmt_spec(ts);
            match r {
                Err(e) => (Err(e), rest),
                Ok(s) => if rest.len() < ts.len() {
                    parse_block_tail_spec(rest, acc.push(s))
                } else {
                    (Ok(acc), rest)
                },
            }
        } else {
            (Ok(acc), ts)
        },
        None => (Ok(acc), ts),
    }
}

pub open spec fn block_result(r: ParseResult<Block>) -> ParseResult<Seq<StmtModel>> {
    match r {
        Ok(b) => Ok(block_model(b@)),
        Err(e) => Err(e),
    }
}

pub open spec fn opt_block_result(r: ParseResult<Option<Block>>) -> ParseResult<
    Option<Seq<StmtModel>>,
> {
    match r {
        Ok(Some(b)) => Ok(Some(block_model(b@))),
        Ok(None) => Ok(None),
        Err(e) => Err(e),
    }
}

proof fn lemma_block_model_push(b: Seq<Statement>, s: Statement)
    ensures
        block_model(b.push(s)) == block_model(b).push(stmt_model(s)),
{
    assert(b.push(s).subrange(0, b.len() as int) =~= b);
}

impl Statement {
    /// Parses one statement.
    pub fn parse(tokens: &mut Tokens) -> (res: ParseResult<Statement>)
        ensures
            (stmt_result(res), final(tokens)@) == parse_stmt_spec(old(tokens)@),
            taken_from_front(old(tokens)@, final(tokens)@),
            res is Ok ==> final(tokens)@.len() < old(tokens)@.len(),
        decreases old(tokens)@.len(), 2nat,
    {
        match tokens.peek() {
            Some(Token::Ident(_)) => return parse_update(tokens),
            Some(Token::From) => return Statement::parse_from(tokens),
            Some(Token::If) => return Statement::parse_if(tokens),
            _ => {},
        }
        match tokens.next() {
            Some(Token::Skip) => Ok(Statement::Skip),
            Some(Token::Local) => {
                let (d, e) = parse_decl_init(tokens)?;
                Ok(Statement::Local(d, e))
            },
            Some(Token::Delocal) => {
                let (d, e) = parse_decl_init(tokens)?;
                Ok(Statement::Delocal(d, e))
            },
            Some(Token::Call) => {
                let (func, args) = parse_call(tokens)?;
                Ok(Statement::Call(func, args))
            },
            Some(Token::Uncall) => {
                let (func, args) = parse_call(tokens)?;
                Ok(Statement::Uncall(func, args))
            },
            Some(Token::Print) => Ok(Statement::Print(parse_string_arg(tokens)?)),
            Some(Token::Printf) => {
                let (text, args) = parse_format_args(tokens)?;
                Ok(Statement::Printf(text, args))
            },
            Some(Token::Error) => Ok(Statement::Error(parse_string_arg(tokens)?)),
            Some(Token::Show) => Ok(Statement::Show(parse_show(tokens)?)),
            Some(Token::Pop) => {
                let (into, from) = parse_stack_args(tokens)?;
                Ok(Statement::Pop(into, from))
            },
            Some(Token::Push) => {
                let (from, into) = parse_stack_args(tokens)?;
                Ok(Statement::Push(from, into))
            },
            _ => Err("statement"),
        }
    }

    /// Parses `'from' expr ['do' stmt+] ['loop' stmt+] 'until' expr`.
    fn parse_from(tokens: &mut Tokens) -> (res: ParseResult<Statement>)
        requires
            first_token(old(tokens)@) == Some(Token::From),
        ensures
            (stmt_result(res), final(tokens)@) == parse_from_spec(old(tokens)@),
            taken_from_front(old(tokens)@, final(tokens)@),
            res is Ok ==> final(tokens)@.len() < old(tokens)@.len(),
        decreases old(tokens)@.len(), 1nat,
    {
        tokens.next();
        let assertion = Expr::parse(tokens)?;
        let forward = Statement::parse_optional_block(tokens, true)?;
        let backward = Statement::parse_optional_block(tokens, false)?;
        match tokens.next() {
            Some(Token::Until) => {},
            _ => return Err("`until` in `from` loop"),
        }
        let pred = Expr::parse(tokens)?;
        Ok(Statement::From(assertion, forward, backward, pred))
    }

    /// Parses `'if' expr 'then' stmt+ ['else' stmt+] 'fi' expr`.
    fn parse_if(tokens: &mut Tokens) -> (res: ParseResult<Statement>)
        requires
            first_token(old(tokens)@) == Some(Token::If),
        ensures
            (stmt_result(res), final(tokens)@) == parse_if_spec(old(tokens)@),
            taken_from_front(old(tokens)@, final(tokens)@),
            res is Ok ==> final(tokens)@.len() < old(tokens)@.len(),
        decreases old(tokens)@.len(), 1nat,
    {
        tokens.next();
        let pred = Expr::parse(tokens)?;
        match tokens.next() {
            Some(Token::Then) => {},
            _ => return Err("`then` after `if` predicate"),
        }
        let pass = Statement::parse_block(tokens)?;
        let fail = Statement::parse_optional_else(tokens)?;
        match tokens.next() {
            Some(Token::Fi) => {},
            _ => return Err("`fi` after `if` statement"),
        }
        let assertion = Expr::parse(tokens)?;
        Ok(Statement::If(pred, pass, fail, assertion))
    }

    /// Parses `['do' stmt+]` (with `forward`) or `['loop' stmt+]`.
    fn parse_optional_block(tokens: &mut Tokens, forward: bool) -> (res: ParseResult<
        Option<Block>,
    >)
        ensures
            (opt_block_result(res), final(tokens)@) == (if first_token(old(tokens)@) == Some(
                if forward {
                    Token::Do
                } else {
                    Token::Loop
                },
            ) {
                opt_block(parse_block_spec(old(tokens)@.drop_first()))
            } else {
                (Ok(None), old(tokens)@)
            }),
            taken_from_front(old(tokens)@, final(tokens)@),
        decreases old(tokens)@.len(), 5nat,
    {
        let present = if forward {
            matches!(tokens.peek(), Some(Token::Do))
        } else {
            matches!(tokens.peek(), Some(Token::Loop))
        };
        if present {
            tokens.next();
            Ok(Some(Statement::parse_block(tokens)?))
        } else {
            proof {
                lemma_taken_from_front_refl(tokens@);
            }
            Ok(None)
        }
    }

    /// Parses `['else' stmt+]`.
    fn parse_optional_else(tokens: &mut Tokens) -> (res: ParseResult<Option<Block>>)
        ensures
            (opt_block_result(res), final(tokens)@) == (if first_token(old(tokens)@) == Some(
                Token::Else,
            ) {
                opt_block(parse_block_spec(old(tokens)@.drop_first()))
            } else {
                (Ok(None), old(tokens)@)
            }),
            taken_from_front(old(tokens)@, final(tokens)@),
        decreases old(tokens)@.len(), 5nat,
    {
        if matches!(tokens.peek(), Some(Token::Else)) {
            tokens.next();
            Ok(Some(Statement::parse_block(tokens)?))
        } else {
            proof {
                lemma_taken_from_front_refl(tokens@);
            }
            Ok(None)
        }
    }

    /// Parses one statement or more, as many as follow one another.
    pub fn parse_block(tokens: &mut Tokens) -> (res: ParseResult<Block>)
        ensures
            (block_result(res), final(tokens)@) == parse_block_spec(old(tokens)@),
            taken_from_front(old(tokens)@, final(tokens)@),
        decreases old(tokens)@.len(), 4nat,
    {
        let ghost start = tokens@;
        let first = Statement::parse(tokens)?;
        let mut block: Block = Vec::new();
        proof {
            lemma_block_model_push(block@, first);
            assert(block@.push(first) =~= seq![first]);
            assert(block@ =~= Seq::<Statement>::empty());
        }
        block.push(first);
        loop
            invariant
                start == old(tokens)@,
                taken_from_front(start, tokens@),
                parse_block_tail_spec(tokens@, block_model(block@)) == parse_block_spec(start),
            ensures
                taken_from_front(start, tokens@),
                (Ok::<Seq<StmtModel>, &'static str>(block_model(block@)), tokens@)
                    == parse_block_spec(start),
            decreases tokens@.len(),
        {
            if !begins_statement(tokens.peek()) {
                break;
            }
            let s = Statement::parse(tokens)?;
            proof {
                lemma_block_model_push(block@, s);
            }
            block.push(s);
        }
        Ok(block)
    }
}

} // verus!
