use vstd::prelude::*;

use crate::token::{after_first, first_token, taken_from_front, Token, Tokens};

verus! {

/// A run-time value.
#[derive(Debug, Clone, Copy, PartialEq, Eq, Structural)]
pub enum Value {
    Nil,
    Bool(bool),
    Int(i64),
    Uint(u64),
}

/// A type annotation, as written after `:` in a `let` or after `as`.
#[derive(Debug, Clone, Copy, PartialEq, Eq, Structural)]
pub enum Type {
    Unit,
    Bool,
    Int,
    UInt,
}

/// Why parsing failed: a description of what was expected.
pub type ParseResult<T> = Result<T, &'static str>;

/// Why evaluation failed.
#[derive(Debug, Clone)]
pub enum EvalError {
    /// A name that is bound nowhere.
    UnknownIdent(String),
    /// An operator met operands of the wrong kind.
    TypeError(&'static str),
}

pub type EvalResult<T> = Result<T, EvalError>;

/// Variables in scope, innermost (most recent) binding last.
pub type Scope = Vec<(String, Value)>;

/// A scope with its names taken by their characters.
pub open spec fn scope_view(s: Seq<(String, Value)>) -> Seq<(Seq<char>, Value)> {
    s.map_values(|p: (String, Value)| (p.0@, p.1))
}

/// The value of the innermost binding of `name`, if there is one.
pub open spec fn lookup(s: Seq<(Seq<char>, Value)>, name: Seq<char>) -> Option<Value>
    decreases s.len(),
{
    if s.len() == 0 {
        None
    } else if s.last().0 == name {
        Some(s.last().1)
    } else {
        lookup(s.drop_last(), name)
    }
}

/// A name reads the value of its innermost (last) binding: a new binding of
/// it shadows the older ones and leaves every other name as it was, and a
/// name bound nowhere reads nothing.
pub proof fn law_lookup_innermost(s: Seq<(Seq<char>, Value)>, name: Seq<char>, k: Seq<char>, v: Value)
    ensures
        lookup(s.push((k, v)), name) == if name == k {
            Some(v)
        } else {
            lookup(s, name)
        },
        lookup(s, name) matches Some(x) ==> exists|i: int|
            0 <= i < s.len() && s[i] == (name, x) && forall|j: int| i < j < s.len() ==> s[j].0 != name,
        lookup(s, name) is None <==> forall|i: int| 0 <= i < s.len() ==> s[i].0 != name,
    decreases s.len(),
{
    assert(s.push((k, v)).drop_last() =~= s);
    if s.len() > 0 {
        let t = s.drop_last();
        law_lookup_innermost(t, name, k, v);
        if s.last().0 == name {
            assert(s[s.len() - 1] == (name, s.last().1));
        } else {
            if let Some(x) = lookup(t, name) {
                let i = choose|i: int|
                    0 <= i < t.len() && t[i] == (name, x) && forall|j: int| i < j < t.len() ==> t[j].0 != name;
                assert(s[i] == (name, x));
                assert forall|j: int| i < j < s.len() implies s[j].0 != name by {
                    if j < s.len() - 1 {
                        assert(s[j] == t[j]);
                    }
                }
            }
            if lookup(s, name) is None {
                assert forall|i: int| 0 <= i < s.len() implies s[i].0 != name by {
                    if i < s.len() - 1 {
                        assert(s[i] == t[i]);
                    }
                }
            } else {
                let i = choose|i: int| 0 <= i < t.len() && #[trigger] t[i].0 == name;
                assert(s[i] == t[i]);
            }
        }
    }
}

/// The innermost binding of `name` in `t`.
pub fn lookup_scope(t: &Scope, name: &String) -> (res: Option<Value>)
    ensures
        res == lookup(scope_view(t@), name@),
{
    let ghost sv = scope_view(t@);
    let mut i: usize = t.len();
    assert(sv.take(i as int) =~= sv);
    while i > 0
        invariant
            i <= t@.len(),
            sv == scope_view(t@),
            lookup(sv.take(i as int), name@) == lookup(sv, name@),
        decreases i,
    {
        proof {
            assert(sv.take(i as int).drop_last() =~= sv.take(i - 1));
        }
        if t[i - 1].0 == *name {
            return Some(t[i - 1].1);
        }
        i -= 1;
    }
    None
}

/// The type named by a token.
pub open spec fn type_of_token(t: Token) -> Option<Type> {
    match t {
        Token::Unit => Some(Type::Unit),
        Token::Bool => Some(Type::Bool),
        Token::Int => Some(Type::Int),
        Token::UInt => Some(Type::UInt),
        _ => None,
    }
}

/// The result of `Type::parse` on the token stream `ts`, and what is left of it.
pub open spec fn parse_type_spec(ts: Seq<Token>) -> (ParseResult<Type>, Seq<Token>) {
    let res = match first_token(ts) {
        Some(t) => match type_of_token(t) {
            Some(ty) => Ok(ty),
            None => Err("type"),
        },
        None => Err("type"),
    };
    (res, after_first(ts))
}

impl Type {
    /// Parses a type name; the token is taken whether or not it names a type.
    pub fn parse(tokens: &mut Tokens) -> (res: ParseResult<Type>)
        ensures
            (res, final(tokens)@) == parse_type_spec(old(tokens)@),
            taken_from_front(old(tokens)@, final(tokens)@),
    {
        match tokens.next() {
            Some(Token::Unit) => Ok(Type::Unit),
            Some(Token::Bool) => Ok(Type::Bool),
            Some(Token::Int) => Ok(Type::Int),
            Some(Token::UInt) => Ok(Type::UInt),
            _ => Err("type"),
        }
    }
}

/// The smallest expression: a literal or a variable.
#[derive(Debug, PartialEq)]
pub enum Term {
    Lit(Value),
    Ident(String),
}

impl Clone for Term {
    fn clone(&self) -> (res: Self)
        ensures
            res == *self,
    {
        match self {
            Term::Lit(v) => Term::Lit(*v),
            Term::Ident(name) => Term::Ident(name.clone()),
        }
    }
}

/// The term a token stands for.
pub open spec fn term_of_token(t: Token) -> Option<Term> {
    match t {
        Token::Number(n) => Some(Term::Lit(Value::Int(n))),
        Token::True => Some(Term::Lit(Value::Bool(true))),
        Token::False => Some(Term::Lit(Value::Bool(false))),
        Token::Ident(name) => Some(Term::Ident(name)),
        _ => None,
    }
}

/// The result of `Term::parse` on the token stream `ts`, and what is left of it.
pub open spec fn parse_term_token_spec(ts: Seq<Token>) -> (ParseResult<Term>, Seq<Token>) {
    let res = match first_token(ts) {
        Some(t) => match term_of_token(t) {
            Some(term) => Ok(term),
            None => Err("term"),
        },
        None => Err("term"),
    };
    (res, after_first(ts))
}

/// The value of a term in a scope; `None` for a variable bound nowhere.
pub open spec fn term_value(term: Term, s: Seq<(Seq<char>, Value)>) -> Option<Value> {
    match term {
        Term::Lit(v) => Some(v),
        Term::Ident(name) => lookup(s, name@),
    }
}

impl Term {
    /// Parses a literal or a variable; the token is taken whether or not it is one.
    pub fn parse(tokens: &mut Tokens) -> (res: ParseResult<Term>)
        ensures
            (res, final(tokens)@) == parse_term_token_spec(old(tokens)@),
            taken_from_front(old(tokens)@, final(tokens)@),
    {
        match tokens.next() {
            Some(Token::Number(n)) => Ok(Term::Lit(Value::Int(n))),
            Some(Token::True) => Ok(Term::Lit(Value::Bool(true))),
            Some(Token::False) => Ok(Term::Lit(Value::Bool(false))),
            Some(Token::Ident(name)) => Ok(Term::Ident(name)),
            _ => Err("term"),
        }
    }

    /// The value of the term: a literal's own value, or the innermost binding
    /// of a variable.
    pub fn eval(&self, t: &Scope) -> (res: Value)
        requires
            term_value(*self, scope_view(t@)) is Some,
        ensures
            term_value(*self, scope_view(t@)) == Some(res),
    {
        match self {
            Term::Lit(v) => *v,
            Term::Ident(name) => lookup_scope(t, name).unwrap(),
        }
    }
}

} // verus!
