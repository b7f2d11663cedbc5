//! Stack frames: the arguments of a call and the local variables declared in it.

use vstd::prelude::*;

use crate::value::{lookup, scope_view, EvalError, EvalResult, Value};

verus! {

/// No name occurs twice.
pub open spec fn distinct_names(s: Seq<(Seq<char>, Value)>) -> bool {
    forall|i: int, j: int| 0 <= i < j < s.len() ==> s[i].0 != s[j].0
}

/// The position of the innermost (last) binding of `name`.
pub open spec fn last_index_of(s: Seq<(Seq<char>, Value)>, name: Seq<char>) -> Option<int>
    decreases s.len(),
{
    if s.len() == 0 {
        None
    } else if s.last().0 == name {
        Some(s.len() - 1)
    } else {
        last_index_of(s.drop_last(), name)
    }
}

/// What a stack frame holds: the arguments, each name once, and the local
/// variables, innermost last.
pub struct FrameModel {
    pub args: Seq<(Seq<char>, Value)>,
    pub vars: Seq<(Seq<char>, Value)>,
}

/// The value a name stands for in a frame: the innermost local variable of
/// that name, else the argument of that name.
pub open spec fn resolve(m: FrameModel, name: Seq<char>) -> Option<Value> {
    match lookup(m.vars, name) {
        Some(v) => Some(v),
        None => lookup(m.args, name),
    }
}

/// The variables of one call.
pub struct StackFrame {
    arg_names: Vec<String>,
    arg_vals: Vec<Value>,
    vars: Vec<(String, Value)>,
}

impl View for StackFrame {
    type V = FrameModel;

    closed spec fn view(&self) -> FrameModel {
        FrameModel {
            args: Seq::new(
                self.arg_names@.len(),
                |i: int| (self.arg_names@[i]@, self.arg_vals@[i]),
            ),
            vars: scope_view(self.vars@),
        }
    }
}

pub proof fn lemma_last_index_of(s: Seq<(Seq<char>, Value)>, name: Seq<char>)
    ensures
        match last_index_of(s, name) {
            Some(i) => 0 <= i < s.len() && s[i].0 == name && lookup(s, name) == Some(s[i].1)
                && forall|j: int| i < j < s.len() ==> s[j].0 != name,
            None => lookup(s, name) is None && forall|j: int| 0 <= j < s.len() ==> s[j].0 != name,
        },
    decreases s.len(),
{
    if s.len() > 0 && s.last().0 != name {
        let t = s.drop_last();
        lemma_last_index_of(t, name);
        assert forall|j: int| 0 <= j < t.len() implies #[trigger] t[j] == s[j] by {}
        assert(s[s.len() - 1].0 != name);
        match last_index_of(t, name) {
            Some(i) => {
                assert forall|j: int| i < j < s.len() implies s[j].0 != name by {
                    if j < t.len() {
                        assert(t[j] == s[j]);
                    }
                }
            },
            None => {
                assert forall|j: int| 0 <= j < s.len() implies s[j].0 != name by {
                    if j < t.len() {
                        assert(t[j] == s[j]);
                    }
                }
            },
        }
    }
}

/// The index of the last binding of `key` among `v`, searching from the end.
fn rfind_index(v: &Vec<(String, Value)>, key: &String) -> (res: Option<usize>)
    ensures
        match res {
            Some(i) => last_index_of(scope_view(v@), key@) == Some(i as int) && i < v@.len(),
            None => last_index_of(scope_view(v@), key@) is None,
        },
{
    let ghost sv = scope_view(v@);
    let mut i: usize = v.len();
    assert(sv.take(i as int) =~= sv);
    while i > 0
        invariant
            i <= v@.len(),
            sv == scope_view(v@),
            last_index_of(sv.take(i as int), key@) == last_index_of(sv, key@),
        decreases i,
    {
        proof {
            assert(sv.take(i as int).drop_last() =~= sv.take(i - 1));
        }
        if v[i - 1].0 == *key {
            return Some(i - 1);
        }
        i -= 1;
    }
    None
}

impl StackFrame {
    /// Every frame is well formed: no argument name occurs twice.
    #[verifier::type_invariant]
    closed spec fn wf(&self) -> bool {
        &&& self.arg_names@.len() == self.arg_vals@.len()
        &&& forall|a: int, b: int|
            0 <= a < b < self.arg_names@.len() ==> #[trigger] self.arg_names@[a]@
                != #[trigger] self.arg_names@[b]@
    }

    /// The position of the argument called `key`, if there is one.
    fn find_arg(&self, key: &String) -> (res: Option<usize>)
        ensures
            match res {
                Some(j) => last_index_of(self@.args, key@) == Some(j as int) && j
                    < self.arg_vals@.len(),
                None => last_index_of(self@.args, key@) is None,
            },
    {
        proof {
            use_type_invariant(self);
        }
        let ghost sv = self@.args;
        let mut i: usize = self.arg_names.len();
        assert(sv.take(i as int) =~= sv);
        while i > 0
            invariant
                i <= self.arg_names@.len(),
                self.arg_names@.len() == self.arg_vals@.len(),
                sv == self@.args,
                last_index_of(sv.take(i as int), key@) == last_index_of(sv, key@),
            decreases i,
        {
            proof {
                assert(sv.take(i as int).drop_last() =~= sv.take(i - 1));
            }
            if self.arg_names[i - 1] == *key {
                return Some(i - 1);
            }
            i -= 1;
        }
        None
    }

    /// No argument name of a frame occurs twice.
    pub fn args_are_distinct(&self)
        ensures
            distinct_names(self@.args),
    {
        proof {
            use_type_invariant(self);
            let args = self@.args;
            assert forall|a: int, b: int| 0 <= a < b < args.len() implies args[a].0
                != args[b].0 by {
                assert(args[a].0 == self.arg_names@[a]@);
                assert(args[b].0 == self.arg_names@[b]@);
            }
        }
    }

    /// A frame with the given arguments and no local variables.
    pub fn new(args: Vec<(String, Value)>) -> (res: Self)
        requires
            distinct_names(scope_view(args@)),
        ensures
            res@.args == scope_view(args@),
            res@.vars == Seq::<(Seq<char>, Value)>::empty(),
    {
        let mut arg_names: Vec<String> = Vec::new();
        let mut arg_vals: Vec<Value> = Vec::new();
        let mut i: usize = 0;
        while i < args.len()
            invariant
                i <= args@.len(),
                arg_names@.len() == i,
                arg_vals@.len() == i,
                forall|j: int|
                    0 <= j < i ==> #[trigger] arg_names@[j] == args@[j].0 && arg_vals@[j]
                        == args@[j].1,
            decreases args@.len() - i,
        {
            arg_names.push(args[i].0.clone());
            arg_vals.push(args[i].1);
            assert(arg_names@[i as int] == args@[i as int].0);
            i += 1;
        }
        proof {
            let sv = scope_view(args@);
            assert forall|a: int, b: int| 0 <= a < b < arg_names@.len() implies #[trigger] arg_names@[a]@
                != #[trigger] arg_names@[b]@ by {
                assert(sv[a].0 == arg_names@[a]@);
                assert(sv[b].0 == arg_names@[b]@);
            }
        }
        let res = Self { arg_names, arg_vals, vars: Vec::new() };
        assert(res@.args =~= scope_view(args@));
        assert(res@.vars =~= Seq::<(Seq<char>, Value)>::empty());
        res
    }

    /// Declares a local variable, shadowing any earlier one of that name.
    pub fn push(&mut self, name: String, val: Value)
        ensures
            final(self)@.args == old(self)@.args,
            final(self)@.vars == old(self)@.vars.push((name@, val)),
    {
        proof {
            use_type_invariant(&*self);
        }
        let mut vars: Vec<(String, Value)> = Vec::new();
        std::mem::swap(&mut vars, &mut self.vars);
        vars.push((name, val));
        std::mem::swap(&mut vars, &mut self.vars);
        assert(self@.vars =~= old(self)@.vars.push((name@, val)));
    }

    /// Removes and returns the innermost local variable.
    pub fn pop(&mut self) -> (res: Option<(String, Value)>)
        ensures
            final(self)@.args == old(self)@.args,
            match res {
                Some(p) => old(self)@.vars.len() > 0 && (p.0@, p.1) == old(self)@.vars.last()
                    && final(self)@.vars == old(self)@.vars.drop_last(),
                None => old(self)@.vars.len() == 0 && final(self)@.vars == old(self)@.vars,
            },
    {
        proof {
            use_type_invariant(&*self);
        }
        let mut vars: Vec<(String, Value)> = Vec::new();
        std::mem::swap(&mut vars, &mut self.vars);
        let res = vars.pop();
        std::mem::swap(&mut vars, &mut self.vars);
        assert(self@.vars =~= if old(self)@.vars.len() > 0 {
            old(self)@.vars.drop_last()
        } else {
            old(self)@.vars
        });
        res
    }

    /// Removes the innermost local variable called `given_name` and returns
    /// its value; an unknown name is an error and leaves the frame as it was.
    pub fn remove(&mut self, given_name: &str) -> (res: EvalResult<Value>)
        ensures
            final(self)@.args == old(self)@.args,
            match last_index_of(old(self)@.vars, given_name@) {
                Some(i) => res == Ok::<Value, EvalError>(old(self)@.vars[i].1)
                    && final(self)@.vars == old(self)@.vars.remove(i),
                None => final(self)@.vars == old(self)@.vars && (res matches Err(
                    EvalError::UnknownIdent(s),
                ) && s@ == given_name@),
            },
    {
        proof {
            use_type_invariant(&*self);
        }
        let key = given_name.to_owned();
        proof {
            lemma_last_index_of(old(self)@.vars, key@);
        }
        match rfind_index(&self.vars, &key) {
            Some(idx) => {
                let mut vars: Vec<(String, Value)> = Vec::new();
                std::mem::swap(&mut vars, &mut self.vars);
                let (_, val) = vars.remove(idx);
                std::mem::swap(&mut vars, &mut self.vars);
                assert(self@.vars =~= old(self)@.vars.remove(idx as int));
                Ok(val)
            },
            None => Err(EvalError::UnknownIdent(key)),
        }
    }

    /// The value of `given_name`: the innermost local variable of that name,
    /// else the argument of that name; an unknown name is an error.
    pub fn get(&self, given_name: &str) -> (res: EvalResult<&Value>)
        ensures
            match resolve(self@, given_name@) {
                Some(v) => res matches Ok(r) && *r == v,
                None => res matches Err(EvalError::UnknownIdent(s)) && s@ == given_name@,
            },
    {
        proof {
            use_type_invariant(&*self);
        }
        let key = given_name.to_owned();
        proof {
            lemma_last_index_of(self@.vars, key@);
            lemma_last_index_of(self@.args, key@);
        }
        match rfind_index(&self.vars, &key) {
            Some(i) => Ok(&self.vars[i].1),
            None => match self.find_arg(&key) {
                Some(j) => Ok(&self.arg_vals[j]),
                None => Err(EvalError::UnknownIdent(key)),
            },
        }
    }

    /// A mutable reference to what `get` would return; writing through it
    /// changes that variable or argument and nothing else.
    pub fn get_mut(&mut self, given_name: &str) -> (res: EvalResult<&mut Value>)
        ensures
            last_index_of(old(self)@.vars, given_name@) matches Some(i) ==> {
                &&& res matches Ok(r)
                &&& *r == old(self)@.vars[i].1
                &&& final(self)@.args == old(self)@.args
                &&& final(self)@.vars == old(self)@.vars.update(i, (given_name@, *final(r)))
            },
            last_index_of(old(self)@.vars, given_name@) is None ==> match last_index_of(
                old(self)@.args,
                given_name@,
            ) {
                Some(j) => {
                    &&& res matches Ok(r)
                    &&& *r == old(self)@.args[j].1
                    &&& final(self)@.vars == old(self)@.vars
                    &&& final(self)@.args == old(self)@.args.update(j, (given_name@, *final(r)))
                },
                None => {
                    &&& final(self)@.vars == old(self)@.vars
                    &&& final(self)@.args == old(self)@.args
                    &&& res matches Err(EvalError::UnknownIdent(s))
                    &&& s@ == given_name@
                },
            },
    {
        proof {
            use_type_invariant(&*self);
        }
        let key = given_name.to_owned();
        proof {
            lemma_last_index_of(old(self)@.vars, key@);
            lemma_last_index_of(old(self)@.args, key@);
        }
        match rfind_index(&self.vars, &key) {
            Some(i) => Ok(&mut self.vars[i].1),
            None => match self.find_arg(&key) {
                Some(j) => Ok(&mut self.arg_vals[j]),
                None => Err(EvalError::UnknownIdent(key)),
            },
        }
    }
}

/// Looking a name up after binding it gives the new value; other names are
/// looked up as before.
proof fn lemma_lookup_push(s: Seq<(Seq<char>, Value)>, name: Seq<char>, v: Value, k: Seq<char>)
    ensures
        lookup(s.push((name, v)), k) == if k == name {
            Some(v)
        } else {
            lookup(s, k)
        },
{
    assert(s.push((name, v)).drop_last() =~= s);
}

/// Changing the value of the last binding of `name` is what a lookup of
/// `name` then finds; other names are looked up as before.
proof fn lemma_lookup_update_last(
    s: Seq<(Seq<char>, Value)>,
    name: Seq<char>,
    w: Value,
    k: Seq<char>,
)
    requires
        last_index_of(s, name) is Some,
    ensures
        lookup(s.update(last_index_of(s, name)->0, (name, w)), k) == if k == name {
            Some(w)
        } else {
            lookup(s, k)
        },
    decreases s.len(),
{
    lemma_last_index_of(s, name);
    let i = last_index_of(s, name)->0;
    let t = s.update(i, (name, w));
    if s.last().0 == name {
        assert(t.drop_last() =~= s.drop_last());
    } else {
        lemma_lookup_update_last(s.drop_last(), name, w, k);
        assert(t.drop_last() =~= s.drop_last().update(i, (name, w)));
    }
}

/// `pop` undoes `push`: it hands back the pair just pushed and leaves the
/// frame as it was.
pub proof fn law_pop_undoes_push(m: FrameModel, name: Seq<char>, val: Value)
    ensures
        ({
            let pushed = FrameModel { args: m.args, vars: m.vars.push((name, val)) };
            &&& pushed.vars.len() > 0
            &&& pushed.vars.last() == (name, val)
            &&& FrameModel { args: pushed.args, vars: pushed.vars.drop_last() } == m
        }),
{
    assert(m.vars.push((name, val)).drop_last() =~= m.vars);
}

/// After `push`, `get` of that name gives the pushed value, and every other
/// name resolves as before.
pub proof fn law_get_after_push(m: FrameModel, name: Seq<char>, val: Value, k: Seq<char>)
    ensures
        resolve(FrameModel { args: m.args, vars: m.vars.push((name, val)) }, k) == if k
            == name {
            Some(val)
        } else {
            resolve(m, k)
        },
{
    lemma_lookup_push(m.vars, name, val, k);
}

/// `remove` undoes `push`: it finds the pushed variable, returns its value
/// and leaves the frame as it was.
pub proof fn law_remove_undoes_push(m: FrameModel, name: Seq<char>, val: Value)
    ensures
        ({
            let pushed = FrameModel { args: m.args, vars: m.vars.push((name, val)) };
            &&& last_index_of(pushed.vars, name) == Some(m.vars.len() as int)
            &&& pushed.vars[m.vars.len() as int].1 == val
            &&& FrameModel {
                args: pushed.args,
                vars: pushed.vars.remove(m.vars.len() as int),
            } == m
        }),
{
    assert(m.vars.push((name, val)).remove(m.vars.len() as int) =~= m.vars);
}

/// What is written through `get_mut` is what `get` reads next, and no other
/// name changes its value.
pub proof fn law_get_after_get_mut(m: FrameModel, name: Seq<char>, w: Value, k: Seq<char>)
    ensures
        last_index_of(m.vars, name) matches Some(i) ==> resolve(
            FrameModel { args: m.args, vars: m.vars.update(i, (name, w)) },
            k,
        ) == if k == name {
            Some(w)
        } else {
            resolve(m, k)
        },
        last_index_of(m.vars, name) is None ==> (last_index_of(m.args, name) matches Some(j)
            ==> resolve(FrameModel { args: m.args.update(j, (name, w)), vars: m.vars }, k) == if k
            == name {
            Some(w)
        } else {
            resolve(m, k)
        }),
{
    if last_index_of(m.vars, name) is Some {
        lemma_lookup_update_last(m.vars, name, w, k);
    } else if last_index_of(m.args, name) is Some {
        lemma_lookup_update_last(m.args, name, w, k);
        lemma_last_index_of(m.vars, name);
    }
}

} // verus!
