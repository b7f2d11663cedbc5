use vstd::prelude::*;

verus! {

/// A lexical token of the expression language.
#[derive(Debug, Clone, PartialEq)]
pub enum Token {
    // keywords
    If,
    Then,
    Else,
    Let,
    // punctuation and operators
    Colon,
    Eq,
    Neq,
    Lt,
    Gt,
    Lte,
    Gte,
    Plus,
    Minus,
    Or,
    Star,
    FSlash,
    Mod,
    And,
    Caret,
    Not,
    As,
    LParen,
    RParen,
    Newline,
    // atoms
    Ident(String),
    Number(i64),
    True,
    False,
    // type names
    Unit,
    Bool,
    Int,
    UInt,
    // statements
    LBracket,
    RBracket,
    Comma,
    Swap,
    AddAssign,
    SubAssign,
    XorAssign,
    Skip,
    Local,
    Delocal,
    From,
    Do,
    Loop,
    Until,
    Fi,
    Call,
    Uncall,
    Print,
    Printf,
    Error,
    Show,
    Pop,
    Push,
    Str(String),
}

/// The token that `next` hands out first: `None` once the stream is empty.
pub open spec fn first_token(ts: Seq<Token>) -> Option<Token> {
    if ts.len() == 0 {
        None
    } else {
        Some(ts[0])
    }
}

/// What is left of a stream after `next`: one token fewer, unless it is empty.
pub open spec fn after_first(ts: Seq<Token>) -> Seq<Token> {
    if ts.len() == 0 {
        ts
    } else {
        ts.drop_first()
    }
}

/// `after` is what is left of `before` once tokens were taken from its front.
pub open spec fn taken_from_front(before: Seq<Token>, after: Seq<Token>) -> bool {
    &&& after.len() <= before.len()
    &&& after == before.skip(before.len() - after.len())
}

/// Taking tokens from the front twice is taking them from the front once.
pub broadcast proof fn lemma_taken_from_front_trans(a: Seq<Token>, b: Seq<Token>, c: Seq<Token>)
    requires
        #[trigger] taken_from_front(a, b),
        #[trigger] taken_from_front(b, c),
    ensures
        taken_from_front(a, c),
{
    assert(c =~= a.skip(a.len() - c.len()));
}

/// Nothing taken is taken from the front.
pub proof fn lemma_taken_from_front_refl(a: Seq<Token>)
    ensures
        taken_from_front(a, a),
{
    assert(a =~= a.skip(0));
}

/// Taking the first token takes it from the front.
pub proof fn lemma_after_first_taken(a: Seq<Token>)
    ensures
        taken_from_front(a, after_first(a)),
{
    if a.len() > 0 {
        assert(a.drop_first() =~= a.skip(1));
    } else {
        lemma_taken_from_front_refl(a);
    }
}

/// A stream of tokens that can be looked at one token ahead.
///
/// The tokens are kept in reverse order, so that the next one is the last
/// element of the vector and taking it is a `pop`.
pub struct Tokens {
    rev: Vec<Token>,
}

impl View for Tokens {
    type V = Seq<Token>;

    /// The tokens still to come, in order.
    closed spec fn view(&self) -> Seq<Token> {
        Seq::new(self.rev@.len(), |i: int| self.rev@[self.rev@.len() - 1 - i])
    }
}

impl Tokens {
    /// A stream that hands out `tokens` from first to last.
    pub fn new(tokens: Vec<Token>) -> (res: Tokens)
        ensures
            res@ == tokens@,
    {
        let ghost orig = tokens@;
        let mut tokens = tokens;
        let mut rev: Vec<Token> = Vec::new();
        while tokens.len() > 0
            invariant
                tokens@.len() + rev@.len() == orig.len(),
                forall|i: int| 0 <= i < tokens@.len() ==> #[trigger] tokens@[i] == orig[i],
                forall|j: int|
                    0 <= j < rev@.len() ==> #[trigger] rev@[j] == orig[orig.len() - 1 - j],
            decreases tokens@.len(),
        {
            let t = tokens.pop().unwrap();
            rev.push(t);
        }
        let res = Tokens { rev };
        assert(res@ =~= orig);
        res
    }

    /// The next token, without taking it.
    pub fn peek(&self) -> (res: Option<&Token>)
        ensures
            match res {
                Some(t) => self@.len() > 0 && *t == self@[0],
                None => self@.len() == 0,
            },
    {
        let n = self.rev.len();
        if n == 0 {
            None
        } else {
            Some(&self.rev[n - 1])
        }
    }

    /// Takes the next token.
    pub fn next(&mut self) -> (res: Option<Token>)
        ensures
            res == first_token(old(self)@),
            final(self)@ == after_first(old(self)@),
            taken_from_front(old(self)@, final(self)@),
    {
        let ghost before = self@;
        let res = self.rev.pop();
        proof {
            if before.len() > 0 {
                assert(self@ =~= before.drop_first());
                assert(before.drop_first() =~= before.skip(1));
            } else {
                lemma_taken_from_front_refl(before);
            }
        }
        res
    }

    /// The number of tokens still to come.
    pub fn len(&self) -> (res: usize)
        ensures
            res == self@.len(),
    {
        self.rev.len()
    }
}

} // verus!
