//! Expressions in Rever have these levels of precedence, from strongest to weakest:
//! 1. Parentheses
//! 3. Unary operators: not
//! 4. Exponential operators: ^
//! 5. Multiplicative operators: * / mod as and
//! 6. Additive operators: + - or xor (written `:`)
//! 7. Relational operators: = != < > <= >=
//!
//! The grammar that the parser follows:
//!
//! ```text
//! expr -> 'if' rel 'then' expr 'else' expr
//!       | 'let' ident [':' type] '=' rel newline expr
//!       | rel
//! rel  -> sum {(=|!=|<|>|<=|>=) sum}          left-associative
//! sum  -> prod {(+|-|or|:) prod}              left-associative
//! prod -> exp {(*|/|mod|and) exp | as type}   left-associative
//! exp  -> atom {^ atom}                       right-associative
//! atom -> ( expr ) | not atom | term
//! ```
//!
//! The spec functions below follow this grammar. Before some recursive calls
//! they check that the stream got shorter; those checks are there only so
//! that the definitions are seen to terminate, and never fail: the lemmas
//! `lemma_*_suffix` of `crate::grammar` show that every parse leaves what is
//! left of its input once tokens were taken from its front.

use vstd::prelude::*;

use crate::token::{
    after_first, first_token, lemma_taken_from_front_trans, taken_from_front, Token, Tokens,
};
use crate::value::{parse_term_token_spec, parse_type_spec, term_of_token, ParseResult, Term, Type};

verus! {

/// A binary operator.
#[derive(Debug, Clone, Copy, PartialEq, Eq, Structural)]
pub enum BinOp {
    // precedence 4
    Exp,
    // precedence 5
    Mul,
    Div,
    Mod,
    And,
    // precedence 6
    Add,
    Sub,
    Or,
    Xor,
    // precedence 7
    Eq,
    Ne,
    Lt,
    Gt,
    Le,
    Ge,
}

/// An expression.
#[derive(Debug, PartialEq)]
pub enum Expr {
    // precedence 1
    Term(Term),
    Group(Box<Expr>),
    Cast(Box<Expr>, Type),
    // precedence 3
    Not(Box<Expr>),
    // binary operators, precedences 4-7
    BinOp(BinOp, Box<Expr>, Box<Expr>),
    // `if test then e1 else e2`, weaker than every operator
    If(Box<Expr>, Box<Expr>, Box<Expr>),
    // `let name [: type] = value <newline> body`, weakest of all
    Let(String, Option<Type>, Box<Expr>, Box<Expr>),
}

impl Clone for Expr {
    fn clone(&self) -> (res: Self)
        ensures
            res == *self,
        decreases self,
    {
        match self {
            Expr::Term(t) => Expr::Term(t.clone()),
            Expr::Group(e) => Expr::Group(Box::new((**e).clone())),
            Expr::Cast(e, ty) => Expr::Cast(Box::new((**e).clone()), *ty),
            Expr::Not(e) => Expr::Not(Box::new((**e).clone())),
            Expr::BinOp(op, l, r) => Expr::BinOp(*op, Box::new((**l).clone()), Box::new((**r).clone())),
            Expr::If(c, a, b) => Expr::If(
                Box::new((**c).clone()),
                Box::new((**a).clone()),
                Box::new((**b).clone()),
            ),
            Expr::Let(name, ty, v, body) => Expr::Let(
                name.clone(),
                *ty,
                Box::new((**v).clone()),
                Box::new((**body).clone()),
            ),
        }
    }
}

impl From<Term> for Expr {
    fn from(f: Term) -> (res: Self) {
        Expr::Term(f)
    }
}

impl vstd::std_specs::convert::FromSpecImpl<Term> for Expr {
    open spec fn obeys_from_spec() -> bool {
        true
    }

    open spec fn from_spec(f: Term) -> Self {
        Expr::Term(f)
    }
}

/// The relational operator a token stands for.
pub open spec fn rel_op(t: Token) -> Option<BinOp> {
    match t {
        Token::Eq => Some(BinOp::Eq),
        Token::Neq => Some(BinOp::Ne),
        Token::Lt => Some(BinOp::Lt),
        Token::Gt => Some(BinOp::Gt),
        Token::Lte => Some(BinOp::Le),
        Token::Gte => Some(BinOp::Ge),
        _ => None,
    }
}

/// The additive operator a token stands for.
pub open spec fn add_op(t: Token) -> Option<BinOp> {
    match t {
        Token::Plus => Some(BinOp::Add),
        Token::Minus => Some(BinOp::Sub),
        Token::Or => Some(BinOp::Or),
        Token::Colon => Some(BinOp::Xor),
        _ => None,
    }
}

/// The multiplicative operator a token stands for.
pub open spec fn mul_op(t: Token) -> Option<BinOp> {
    match t {
        Token::Star => Some(BinOp::Mul),
        Token::FSlash => Some(BinOp::Div),
        Token::Mod => Some(BinOp::Mod),
        Token::And => Some(BinOp::And),
        _ => None,
    }
}

/// The operator of a given precedence level at the head of a stream:
/// level 7 is relational, 6 additive, 5 multiplicative.
pub open spec fn op_at(level: nat, ts: Seq<Token>) -> Option<BinOp> {
    match first_token(ts) {
        Some(t) => if level == 7 {
            rel_op(t)
        } else if level == 6 {
            add_op(t)
        } else {
            mul_op(t)
        },
        None => None,
    }
}

/// A binary expression node.
pub open spec fn bin(op: BinOp, l: Expr, r: Expr) -> Expr {
    Expr::BinOp(op, Box::new(l), Box::new(r))
}

/// `Expr::parse`: the result on the token stream `ts`, and what is left of it.
pub open spec fn parse_spec(ts: Seq<Token>) -> (ParseResult<Expr>, Seq<Token>)
    decreases ts.len(), 10nat,
{
    if first_token(ts) == Some(Token::If) {
        let ts1 = ts.drop_first();
        let (r1, rest1) = parse_rel_spec(ts1);
        match r1 {
            Err(e) => (Err(e), rest1),
            Ok(test) => if first_token(rest1) != Some(Token::Then) {
                (Err("`then` after `if` predicate"), after_first(rest1))
            } else if rest1.len() > ts1.len() {
                (Err("`then` after `if` predicate"), rest1)
            } else {
                let (r2, rest2) = parse_spec(rest1.drop_first());
                match r2 {
                    Err(e) => (Err(e), rest2),
                    Ok(main) => if first_token(rest2) != Some(Token::Else) {
                        (Err("`else` in `if` expression"), after_first(rest2))
                    } else if rest2.len() >= ts1.len() {
                        (Err("`else` in `if` expression"), rest2)
                    } else {
                        let (r3, rest3) = parse_spec(rest2.drop_first());
                        match r3 {
                            Err(e) => (Err(e), rest3),
                            Ok(els) => (
                                Ok(Expr::If(Box::new(test), Box::new(main), Box::new(els))),
                                rest3,
                            ),
                        }
                    },
                }
            },
        }
    } else if first_token(ts) == Some(Token::Let) {
        let ts1 = ts.drop_first();
        match first_token(ts1) {
            Some(Token::Ident(name)) => {
                let ts2 = ts1.drop_first();
                let (rt, ts3) = if first_token(ts2) == Some(Token::Colon) {
                    let (r, rest) = parse_type_spec(ts2.drop_first());
                    match r {
                        Ok(ty) => (Ok(Some(ty)), rest),
                        Err(e) => (Err(e), rest),
                    }
                } else {
                    (Ok(None), ts2)
                };
                match rt {
                    Err(e) => (Err(e), ts3),
                    Ok(typ) => if first_token(ts3) != Some(Token::Eq) {
                        (Err("`=` after let-binding name"), after_first(ts3))
                    } else {
                        let ts4 = ts3.drop_first();
                        let (rv, ts5) = parse_rel_spec(ts4);
                        match rv {
                            Err(e) => (Err(e), ts5),
                            Ok(val) => if first_token(ts5) != Some(Token::Newline) {
                                (Err("`in` after `let` binding"), after_first(ts5))
                            } else if ts5.len() > ts4.len() {
                                (Err("`in` after `let` binding"), ts5)
                            } else {
                                let (rb, ts6) = parse_spec(ts5.drop_first());
                                match rb {
                                    Err(e) => (Err(e), ts6),
                                    Ok(body) => (
                                        Ok(Expr::Let(name, typ, Box::new(val), Box::new(body))),
                                        ts6,
                                    ),
                                }
                            },
                        }
                    },
                }
            },
            _ => (Err("name for let-binding"), after_first(ts1)),
        }
    } else {
        parse_rel_spec(ts)
    }
}

/// `Expr::parse_rel`: a chain of sums joined by relational operators.
pub open spec fn parse_rel_spec(ts: Seq<Token>) -> (ParseResult<Expr>, Seq<Token>)
    decreases ts.len(), 8nat,
{
    let (r, rest) = parse_expr_spec(ts);
    match r {
        Err(e) => (Err(e), rest),
        Ok(first) => if rest.len() <= ts.len() {
            rel_tail_spec(rest, first)
        } else {
            (Ok(first), rest)
        },
    }
}

/// The rest of a relational chain, folded onto `acc` from the left.
pub open spec fn rel_tail_spec(ts: Seq<Token>, acc: Expr) -> (ParseResult<Expr>, Seq<Token>)
    decreases ts.len(), 7nat,
{
    match op_at(7, ts) {
        None => (Ok(acc), ts),
        Some(op) => {
            let (r, rest) = parse_expr_spec(ts.drop_first());
            match r {
                Err(e) => (Err(e), rest),
                Ok(rhs) => if rest.len() < ts.len() {
                    rel_tail_spec(rest, bin(op, acc, rhs))
                } else {
                    (Ok(acc), rest)
                },
            }
        },
    }
}

/// `Expr::parse_expr`: a chain of products joined by additive operators.
pub open spec fn parse_expr_spec(ts: Seq<Token>) -> (ParseResult<Expr>, Seq<Token>)
    decreases ts.len(), 6nat,
{
    let (r, rest) = parse_term_spec(ts);
    match r {
        Err(e) => (Err(e), rest),
        Ok(first) => if rest.len() <= ts.len() {
            expr_tail_spec(rest, first)
        } else {
            (Ok(first), rest)
        },
    }
}

/// The rest of an additive chain, folded onto `acc` from the left.
pub open spec fn expr_tail_spec(ts: Seq<Token>, acc: Expr) -> (ParseResult<Expr>, Seq<Token>)
    decreases ts.len(), 5nat,
{
    match op_at(6, ts) {
        None => (Ok(acc), ts),
        Some(op) => {
            let (r, rest) = parse_term_spec(ts.drop_first());
            match r {
                Err(e) => (Err(e), rest),
                Ok(rhs) => if rest.len() < ts.len() {
                    expr_tail_spec(rest, bin(op, acc, rhs))
                } else {
                    (Ok(acc), rest)
                },
            }
        },
    }
}

/// `Expr::parse_term`: a chain of powers joined by multiplicative operators,
/// each link possibly cast by `as type`.
pub open spec fn parse_term_spec(ts: Seq<Token>) -> (ParseResult<Expr>, Seq<Token>)
    decreases ts.len(), 4nat,
{
    let (r, rest) = parse_exp_spec(ts);
    match r {
        Err(e) => (Err(e), rest),
        Ok(first) => if rest.len() <= ts.len() {
            term_tail_spec(rest, first)
        } else {
            (Ok(first), rest)
        },
    }
}

/// The rest of a multiplicative chain, folded onto `acc` from the left; a cast
/// `as type` applies to everything before it.
pub open spec fn term_tail_spec(ts: Seq<Token>, acc: Expr) -> (ParseResult<Expr>, Seq<Token>)
    decreases ts.len(), 3nat,
{
    if first_token(ts) == Some(Token::As) {
        let (r, rest) = parse_type_spec(ts.drop_first());
        match r {
            Err(e) => (Err(e), rest),
            Ok(ty) => term_tail_spec(rest, Expr::Cast(Box::new(acc), ty)),
        }
    } else {
        match op_at(5, ts) {
        None => (Ok(acc), ts),
        Some(op) => {
            let (r, rest) = parse_exp_spec(ts.drop_first());
            match r {
                Err(e) => (Err(e), rest),
                Ok(rhs) => if rest.len() < ts.len() {
                    term_tail_spec(rest, bin(op, acc, rhs))
                } else {
                    (Ok(acc), rest)
                },
            }
        },
        }
    }
}

/// `Expr::parse_exp`: atoms joined by `^`, grouped from the right.
pub open spec fn parse_exp_spec(ts: Seq<Token>) -> (ParseResult<Expr>, Seq<Token>)
    decreases ts.len(), 2nat,
{
    let (r, rest) = parse_atom_spec(ts);
    match r {
        Err(e) => (Err(e), rest),
        Ok(first) => if first_token(rest) != Some(Token::Caret) {
            (Ok(first), rest)
        } else if rest.len() > ts.len() {
            (Ok(first), rest)
        } else {
            let (r2, rest2) = parse_exp_spec(rest.drop_first());
            match r2 {
                Err(e) => (Err(e), rest2),
                Ok(power) => (Ok(bin(BinOp::Exp, first, power)), rest2),
            }
        },
    }
}

/// `Expr::parse_atom`: a parenthesised expression, a negation, or a term.
pub open spec fn parse_atom_spec(ts: Seq<Token>) -> (ParseResult<Expr>, Seq<Token>)
    decreases ts.len(), 1nat,
{
    if first_token(ts) == Some(Token::LParen) {
        let (r, rest) = parse_spec(ts.drop_first());
        match r {
            Err(e) => (Err(e), rest),
            Ok(inner) => if first_token(rest) != Some(Token::RParen) {
                (Err("`)` after subexpression"), after_first(rest))
            } else {
                (Ok(Expr::Group(Box::new(inner))), after_first(rest))
            },
        }
    } else if first_token(ts) == Some(Token::Not) {
        let (r, rest) = parse_atom_spec(ts.drop_first());
        match r {
            Err(e) => (Err(e), rest),
            Ok(inner) => (Ok(Expr::Not(Box::new(inner))), rest),
        }
    } else {
        let (r, rest) = parse_term_token_spec(ts);
        match r {
            Err(e) => (Err(e), rest),
            Ok(term) => (Ok(Expr::Term(term)), rest),
        }
    }
}

broadcast use lemma_taken_from_front_trans;

impl Expr {
    /// Parses an expression: an `if`, a `let`, or a relational chain.
    pub fn parse(tokens: &mut Tokens) -> (res: ParseResult<Expr>)
        ensures
            (res, final(tokens)@) == parse_spec(old(tokens)@),
            taken_from_front(old(tokens)@, final(tokens)@),
        decreases old(tokens)@.len(), 10nat,
    {
        if matches!(tokens.peek(), Some(Token::If)) {
            tokens.next();
            let test = Box::new(Expr::parse_rel(tokens)?);
            // the predicate is followed by `then`
            match tokens.next() {
                Some(Token::Then) => {},
                _ => return Err("`then` after `if` predicate"),
            }
            // parse the main block
            let main_expr = Box::new(Expr::parse(tokens)?);
            // check for `else`
            match tokens.next() {
                Some(Token::Else) => {},
                _ => return Err("`else` in `if` expression"),
            }
            // parse else section
            let else_block = Box::new(Expr::parse(tokens)?);
            Ok(Expr::If(test, main_expr, else_block))
        } else if matches!(tokens.peek(), Some(Token::Let)) {
            tokens.next();
            let name = match tokens.next() {
                Some(Token::Ident(name)) => name,
                _ => return Err("name for let-binding"),
            };
            // optional type as `: type`
            let typ = if matches!(tokens.peek(), Some(Token::Colon)) {
                tokens.next();
                Some(Type::parse(tokens)?)
            } else {
                None
            };
            // check for '='
            match tokens.next() {
                Some(Token::Eq) => {},
                _ => return Err("`=` after let-binding name"),
            }
            // the bound value is a relational chain on purpose: a `let` inside
            // the value of a `let` makes little sense.
            let val = Expr::parse_rel(tokens)?;
            // check for newline
            match tokens.next() {
                Some(Token::Newline) => {},
                _ => return Err("`in` after `let` binding"),
            }
            let scope = Expr::parse(tokens)?;
            Ok(Expr::Let(name, typ, Box::new(val), Box::new(scope)))
        } else {
            Expr::parse_rel(tokens)
        }
    }

    /// Parses `sum {(=|≠|<|>|≤|≥) sum}`, grouping from the left.
    pub fn parse_rel(tokens: &mut Tokens) -> (res: ParseResult<Expr>)
        ensures
            (res, final(tokens)@) == parse_rel_spec(old(tokens)@),
            taken_from_front(old(tokens)@, final(tokens)@),
        decreases old(tokens)@.len(), 8nat,
    {
        let ghost start = tokens@;
        let mut acc = Expr::parse_expr(tokens)?;
        loop
            invariant
                start == old(tokens)@,
                taken_from_front(start, tokens@),
                rel_tail_spec(tokens@, acc) == parse_rel_spec(start),
            ensures
                (Ok::<Expr, &'static str>(acc), tokens@) == parse_rel_spec(start),
                taken_from_front(start, tokens@),
            decreases tokens@.len(),
        {
            let op = match tokens.peek() {
                Some(Token::Eq) => BinOp::Eq,
                Some(Token::Neq) => BinOp::Ne,
                Some(Token::Lt) => BinOp::Lt,
                Some(Token::Gt) => BinOp::Gt,
                Some(Token::Lte) => BinOp::Le,
                Some(Token::Gte) => BinOp::Ge,
                _ => break,
            };
            let ghost before = tokens@;
            assert(op_at(7, before) == Some(op));
            tokens.next();
            let rhs = Expr::parse_expr(tokens)?;
            acc = Expr::BinOp(op, Box::new(acc), Box::new(rhs));
        }
        Ok(acc)
    }

    /// Parses `prod {(+|-|or|:) prod}`, grouping from the left.
    pub fn parse_expr(tokens: &mut Tokens) -> (res: ParseResult<Expr>)
        ensures
            (res, final(tokens)@) == parse_expr_spec(old(tokens)@),
            taken_from_front(old(tokens)@, final(tokens)@),
        decreases old(tokens)@.len(), 6nat,
    {
        let ghost start = tokens@;
        let mut acc = Expr::parse_term(tokens)?;
        loop
            invariant
                start == old(tokens)@,
                taken_from_front(start, tokens@),
                expr_tail_spec(tokens@, acc) == parse_expr_spec(start),
            ensures
                (Ok::<Expr, &'static str>(acc), tokens@) == parse_expr_spec(start),
                taken_from_front(start, tokens@),
            decreases tokens@.len(),
        {
            let op = match tokens.peek() {
                Some(Token::Plus) => BinOp::Add,
                Some(Token::Minus) => BinOp::Sub,
                Some(Token::Or) => BinOp::Or,
                Some(Token::Colon) => BinOp::Xor,
                _ => break,
            };
            let ghost before = tokens@;
            assert(op_at(6, before) == Some(op));
            tokens.next();
            let rhs = Expr::parse_term(tokens)?;
            acc = Expr::BinOp(op, Box::new(acc), Box::new(rhs));
        }
        Ok(acc)
    }

    /// Parses `exp {(*|/|mod|and) exp | as type}`, grouping from the left.
    pub fn parse_term(tokens: &mut Tokens) -> (res: ParseResult<Expr>)
        ensures
            (res, final(tokens)@) == parse_term_spec(old(tokens)@),
            taken_from_front(old(tokens)@, final(tokens)@),
        decreases old(tokens)@.len(), 4nat,
    {
        let ghost start = tokens@;
        let mut acc = Expr::parse_exp(tokens)?;
        loop
            invariant
                start == old(tokens)@,
                taken_from_front(start, tokens@),
                term_tail_spec(tokens@, acc) == parse_term_spec(start),
            ensures
                (Ok::<Expr, &'static str>(acc), tokens@) == parse_term_spec(start),
                taken_from_front(start, tokens@),
            decreases tokens@.len(),
        {
            if matches!(tokens.peek(), Some(Token::As)) {
                tokens.next();
                let ty = Type::parse(tokens)?;
                acc = Expr::Cast(Box::new(acc), ty);
                continue;
            }
            let op = match tokens.peek() {
                Some(Token::Star) => BinOp::Mul,
                Some(Token::FSlash) => BinOp::Div,
                Some(Token::Mod) => BinOp::Mod,
                Some(Token::And) => BinOp::And,
                _ => break,
            };
            let ghost before = tokens@;
            assert(op_at(5, before) == Some(op));
            tokens.next();
            let rhs = Expr::parse_exp(tokens)?;
            acc = Expr::BinOp(op, Box::new(acc), Box::new(rhs));
        }
        Ok(acc)
    }

    /// Parses `atom {^ atom}`, grouping from the right: `a ^ b ^ c` is `a ^ (b ^ c)`.
    pub fn parse_exp(tokens: &mut Tokens) -> (res: ParseResult<Expr>)
        ensures
            (res, final(tokens)@) == parse_exp_spec(old(tokens)@),
            taken_from_front(old(tokens)@, final(tokens)@),
        decreases old(tokens)@.len(), 2nat,
    {
        let first = Expr::parse_atom(tokens)?;
        if !matches!(tokens.peek(), Some(Token::Caret)) {
            return Ok(first);
        }
        tokens.next();
        let power = Expr::parse_exp(tokens)?;
        Ok(Expr::BinOp(BinOp::Exp, Box::new(first), Box::new(power)))
    }

    /// Parses `( expr )`, `not atom` or a term.
    pub fn parse_atom(tokens: &mut Tokens) -> (res: ParseResult<Expr>)
        ensures
            (res, final(tokens)@) == parse_atom_spec(old(tokens)@),
            taken_from_front(old(tokens)@, final(tokens)@),
        decreases old(tokens)@.len(), 1nat,
    {
        // check if there's an open parenthesis
        if matches!(tokens.peek(), Some(Token::LParen)) {
            tokens.next();
            let expr = Expr::parse(tokens)?;
            // make sure there's a closing parenthesis
            match tokens.next() {
                Some(Token::RParen) => {},
                _ => return Err("`)` after subexpression"),
            }
            Ok(Expr::Group(Box::new(expr)))
        } else if matches!(tokens.peek(), Some(Token::Not)) {
            tokens.next();
            let inner = Expr::parse_atom(tokens)?;
            Ok(Expr::Not(Box::new(inner)))
        } else {
            // otherwise, treat it as a term
            Ok(Expr::Term(Term::parse(tokens)?))
        }
    }
}

/// The expression a term token parses to.
pub open spec fn term_expr(t: Token) -> Expr {
    Expr::Term(term_of_token(t)->0)
}

/// A term token is an atom.
proof fn lemma_atom_of_term(t: Token, rest: Seq<Token>)
    requires
        term_of_token(t) is Some,
    ensures
        parse_atom_spec(seq![t] + rest) == (Ok::<Expr, &'static str>(term_expr(t)), rest),
{
    let ts = seq![t] + rest;
    assert(ts.drop_first() =~= rest);
    assert(first_token(ts) == Some(t));
}

/// A single term token parses at every level to that term, leaving `rest`.
proof fn lemma_single_term(t: Token, rest: Seq<Token>)
    requires
        term_of_token(t) is Some,
        first_token(rest) != Some(Token::Caret),
    ensures
        parse_atom_spec(seq![t] + rest) == (Ok::<Expr, &'static str>(term_expr(t)), rest),
        parse_exp_spec(seq![t] + rest) == (Ok::<Expr, &'static str>(term_expr(t)), rest),
        parse_term_spec(seq![t] + rest) == term_tail_spec(rest, term_expr(t)),
{
    let ts = seq![t] + rest;
    assert(ts.drop_first() =~= rest);
    assert(first_token(ts) == Some(t));
}

/// An operator of level 5 followed by a term, at the end of the stream,
/// folds onto the left operand.
proof fn lemma_last_product(acc: Expr, times: Token, c: Token)
    requires
        term_of_token(c) is Some,
        mul_op(times) is Some,
    ensures
        term_tail_spec(seq![times, c], acc) == (
            Ok::<Expr, &'static str>(bin(mul_op(times)->0, acc, term_expr(c))),
            Seq::<Token>::empty(),
        ),
{
    let e = Seq::<Token>::empty();
    let r = seq![times, c];
    assert(r.drop_first() =~= seq![c] + e);
    lemma_single_term(c, e);
    let x = bin(mul_op(times)->0, acc, term_expr(c));
    assert(term_tail_spec(e, x) == (Ok::<Expr, &'static str>(x), e));
}

/// With nothing left, each chain of operators ends and each level hands on
/// what it parsed.
proof fn lemma_tails_at_end(x: Expr)
    ensures
        term_tail_spec(Seq::<Token>::empty(), x) == (
            Ok::<Expr, &'static str>(x),
            Seq::<Token>::empty(),
        ),
        expr_tail_spec(Seq::<Token>::empty(), x) == (
            Ok::<Expr, &'static str>(x),
            Seq::<Token>::empty(),
        ),
        rel_tail_spec(Seq::<Token>::empty(), x) == (
            Ok::<Expr, &'static str>(x),
            Seq::<Token>::empty(),
        ),
{
}

/// Multiplicative operators bind tighter than additive ones:
/// `a + b * c` parses as `a + (b * c)`.
#[verifier::spinoff_prover]
#[verifier::rlimit(40)]
pub proof fn law_product_binds_tighter_than_sum(
    a: Token,
    plus: Token,
    b: Token,
    times: Token,
    c: Token,
)
    requires
        term_of_token(a) is Some,
        term_of_token(b) is Some,
        term_of_token(c) is Some,
        add_op(plus) is Some,
        mul_op(times) is Some,
    ensures
        parse_spec(seq![a, plus, b, times, c]) == (
            Ok::<Expr, &'static str>(
                bin(
                    add_op(plus)->0,
                    term_expr(a),
                    bin(mul_op(times)->0, term_expr(b), term_expr(c)),
                ),
            ),
            Seq::<Token>::empty(),
        ),
{
    let ts = seq![a, plus, b, times, c];
    let r1 = seq![plus, b, times, c];
    let r2 = seq![b, times, c];
    let r3 = seq![times, c];
    let e = Seq::<Token>::empty();
    let bc = bin(mul_op(times)->0, term_expr(b), term_expr(c));
    let whole = bin(add_op(plus)->0, term_expr(a), bc);
    assert(parse_term_spec(r2) == (Ok::<Expr, &'static str>(bc), e)) by {
        assert(r2 =~= seq![b] + r3);
        lemma_single_term(b, r3);
        lemma_last_product(term_expr(b), times, c);
    }
    assert(expr_tail_spec(r1, term_expr(a)) == (Ok::<Expr, &'static str>(whole), e)) by {
        assert(r1.drop_first() =~= r2);
        lemma_tails_at_end(whole);
    }
    assert(parse_expr_spec(ts) == (Ok::<Expr, &'static str>(whole), e)) by {
        assert(ts =~= seq![a] + r1);
        lemma_single_term(a, r1);
    }
    assert(parse_rel_spec(ts) == (Ok::<Expr, &'static str>(whole), e)) by {
        lemma_tails_at_end(whole);
    }
    assert(first_token(ts) == Some(a));
}

/// Operators of one level group from the left: `a - b - c` parses as
/// `(a - b) - c`, and likewise for any two additive operators.
#[verifier::spinoff_prover]
#[verifier::rlimit(40)]
pub proof fn law_sums_group_left(a: Token, op1: Token, b: Token, op2: Token, c: Token)
    requires
        term_of_token(a) is Some,
        term_of_token(b) is Some,
        term_of_token(c) is Some,
        add_op(op1) is Some,
        add_op(op2) is Some,
    ensures
        parse_spec(seq![a, op1, b, op2, c]) == (
            Ok::<Expr, &'static str>(
                bin(
                    add_op(op2)->0,
                    bin(add_op(op1)->0, term_expr(a), term_expr(b)),
                    term_expr(c),
                ),
            ),
            Seq::<Token>::empty(),
        ),
{
    let ts = seq![a, op1, b, op2, c];
    let r1 = seq![op1, b, op2, c];
    let r2 = seq![b, op2, c];
    let r3 = seq![op2, c];
    let e = Seq::<Token>::empty();
    let ab = bin(add_op(op1)->0, term_expr(a), term_expr(b));
    let whole = bin(add_op(op2)->0, ab, term_expr(c));
    assert(expr_tail_spec(r3, ab) == (Ok::<Expr, &'static str>(whole), e)) by {
        assert(r3.drop_first() =~= seq![c] + e);
        lemma_single_term(c, e);
        lemma_tails_at_end(term_expr(c));
        lemma_tails_at_end(whole);
    }
    assert(parse_term_spec(r2) == (Ok::<Expr, &'static str>(term_expr(b)), r3)) by {
        assert(r2 =~= seq![b] + r3);
        lemma_single_term(b, r3);
    }
    assert(expr_tail_spec(r1, term_expr(a)) == (Ok::<Expr, &'static str>(whole), e)) by {
        assert(r1.drop_first() =~= r2);
    }
    assert(parse_expr_spec(ts) == (Ok::<Expr, &'static str>(whole), e)) by {
        assert(ts =~= seq![a] + r1);
        lemma_single_term(a, r1);
    }
    assert(parse_rel_spec(ts) == (Ok::<Expr, &'static str>(whole), e)) by {
        lemma_tails_at_end(whole);
    }
    assert(first_token(ts) == Some(a));
}

/// `^` groups from the right: `a ^ b ^ c` parses as `a ^ (b ^ c)`.
#[verifier::spinoff_prover]
#[verifier::rlimit(40)]
pub proof fn law_powers_group_right(a: Token, b: Token, c: Token)
    requires
        term_of_token(a) is Some,
        term_of_token(b) is Some,
        term_of_token(c) is Some,
    ensures
        parse_spec(seq![a, Token::Caret, b, Token::Caret, c]) == (
            Ok::<Expr, &'static str>(
                bin(BinOp::Exp, term_expr(a), bin(BinOp::Exp, term_expr(b), term_expr(c))),
            ),
            Seq::<Token>::empty(),
        ),
{
    let ts = seq![a, Token::Caret, b, Token::Caret, c];
    let r1 = seq![Token::Caret, b, Token::Caret, c];
    let r2 = seq![b, Token::Caret, c];
    let r3 = seq![Token::Caret, c];
    let e = Seq::<Token>::empty();
    let bc = bin(BinOp::Exp, term_expr(b), term_expr(c));
    let whole = bin(BinOp::Exp, term_expr(a), bc);
    assert(parse_exp_spec(r2) == (Ok::<Expr, &'static str>(bc), e)) by {
        assert(r3.drop_first() =~= seq![c] + e);
        lemma_single_term(c, e);
        assert(r2 =~= seq![b] + r3);
        lemma_atom_of_term(b, r3);
    }
    assert(parse_exp_spec(ts) == (Ok::<Expr, &'static str>(whole), e)) by {
        assert(ts =~= seq![a] + r1);
        assert(r1.drop_first() =~= r2);
        lemma_atom_of_term(a, r1);
    }
    assert(parse_term_spec(ts) == (Ok::<Expr, &'static str>(whole), e)) by {
        lemma_tails_at_end(whole);
    }
    assert(parse_expr_spec(ts) == (Ok::<Expr, &'static str>(whole), e)) by {
        lemma_tails_at_end(whole);
    }
    assert(parse_rel_spec(ts) == (Ok::<Expr, &'static str>(whole), e)) by {
        lemma_tails_at_end(whole);
    }
    assert(first_token(ts) == Some(a));
}

/// An `if` or a `let`: the forms weaker than every operator.
pub open spec fn is_if_or_let(e: Expr) -> bool {
    e is If || e is Let
}

/// A successful parse gave no `if` or `let`.
pub open spec fn ok_is_no_if_or_let(r: ParseResult<Expr>) -> bool {
    r matches Ok(e) ==> !is_if_or_let(e)
}

/// Whatever parses as a relational chain is no `if` or `let`.
proof fn lemma_rel_is_no_if_or_let(ts: Seq<Token>)
    ensures
        ok_is_no_if_or_let(parse_rel_spec(ts).0),
{
    lemma_expr_is_no_if_or_let(ts);
    let (r, rest) = parse_expr_spec(ts);
    if let Ok(first) = r {
        if rest.len() <= ts.len() {
            lemma_rel_tail_is_no_if_or_let(rest, first);
        }
    }
}

proof fn lemma_rel_tail_is_no_if_or_let(ts: Seq<Token>, acc: Expr)
    requires
        !is_if_or_let(acc),
    ensures
        rel_tail_spec(ts, acc).0 matches Ok(e) ==> !is_if_or_let(e),
    decreases ts.len(),
{
    if let Some(op) = op_at(7, ts) {
        let (r, rest) = parse_expr_spec(ts.drop_first());
        if let Ok(rhs) = r {
            if rest.len() < ts.len() {
                lemma_rel_tail_is_no_if_or_let(rest, bin(op, acc, rhs));
            }
        }
    }
}

proof fn lemma_expr_is_no_if_or_let(ts: Seq<Token>)
    ensures
        parse_expr_spec(ts).0 matches Ok(e) ==> !is_if_or_let(e),
{
    lemma_term_is_no_if_or_let(ts);
    let (r, rest) = parse_term_spec(ts);
    if let Ok(first) = r {
        if rest.len() <= ts.len() {
            lemma_expr_tail_is_no_if_or_let(rest, first);
        }
    }
}

proof fn lemma_expr_tail_is_no_if_or_let(ts: Seq<Token>, acc: Expr)
    requires
        !is_if_or_let(acc),
    ensures
        expr_tail_spec(ts, acc).0 matches Ok(e) ==> !is_if_or_let(e),
    decreases ts.len(),
{
    if let Some(op) = op_at(6, ts) {
        let (r, rest) = parse_term_spec(ts.drop_first());
        if let Ok(rhs) = r {
            if rest.len() < ts.len() {
                lemma_expr_tail_is_no_if_or_let(rest, bin(op, acc, rhs));
            }
        }
    }
}

proof fn lemma_term_is_no_if_or_let(ts: Seq<Token>)
    ensures
        parse_term_spec(ts).0 matches Ok(e) ==> !is_if_or_let(e),
{
    let (r, rest) = parse_exp_spec(ts);
    if let Ok(first) = r {
        if rest.len() <= ts.len() {
            lemma_term_tail_is_no_if_or_let(rest, first);
        }
    }
}

proof fn lemma_term_tail_is_no_if_or_let(ts: Seq<Token>, acc: Expr)
    requires
        !is_if_or_let(acc),
    ensures
        term_tail_spec(ts, acc).0 matches Ok(e) ==> !is_if_or_let(e),
    decreases ts.len(),
{
    if first_token(ts) == Some(Token::As) {
        let (r, rest) = parse_type_spec(ts.drop_first());
        if let Ok(ty) = r {
            lemma_term_tail_is_no_if_or_let(rest, Expr::Cast(Box::new(acc), ty));
        }
    } else if let Some(op) = op_at(5, ts) {
        let (r, rest) = parse_exp_spec(ts.drop_first());
        if let Ok(rhs) = r {
            if rest.len() < ts.len() {
                lemma_term_tail_is_no_if_or_let(rest, bin(op, acc, rhs));
            }
        }
    }
}

/// The value of a `let` and the test of an `if` are relational chains: an
/// `if` or `let` there has to be parenthesised, and then it is a group.
pub proof fn law_let_value_and_if_test_are_no_if_or_let(ts: Seq<Token>)
    ensures
        parse_spec(ts).0 matches Ok(Expr::Let(_, _, v, _)) ==> !is_if_or_let(*v),
        parse_spec(ts).0 matches Ok(Expr::If(c, _, _)) ==> !is_if_or_let(*c),
{
    if first_token(ts) == Some(Token::If) {
        lemma_rel_is_no_if_or_let(ts.drop_first());
    } else if first_token(ts) == Some(Token::Let) {
        let ts1 = ts.drop_first();
        if let Some(Token::Ident(_)) = first_token(ts1) {
            let ts2 = ts1.drop_first();
            let ts3 = if first_token(ts2) == Some(Token::Colon) {
                parse_type_spec(ts2.drop_first()).1
            } else {
                ts2
            };
            lemma_rel_is_no_if_or_let(ts3.drop_first());
        }
    } else {
        lemma_rel_is_no_if_or_let(ts);
    }
}

} // verus!
