use vstd::prelude::*;

use crate::ast::{lemma_node_terms, node_terms, EvalError, Node, NodeKind, Proventus, Tagged, Term};

verus! {

/// An environment as a mathematical value: the scopes from outermost to
/// innermost, the statement window of the enclosing program and its cursor.
pub struct Env {
    pub scopes: Seq<Map<Seq<char>, Tagged>>,
    pub window: Seq<Term>,
    pub cursor: int,
}

/// The binding of `name` in the innermost of the first `n` scopes that has one.
pub open spec fn lookup_upto(scopes: Seq<Map<Seq<char>, Tagged>>, n: nat, name: Seq<char>) -> Option<Tagged>
    decreases n,
{
    if n == 0 || n > scopes.len() {
        None
    } else if scopes[n - 1].contains_key(name) {
        Some(scopes[n - 1][name])
    } else {
        lookup_upto(scopes, (n - 1) as nat, name)
    }
}

/// The binding of `name` in the innermost scope that has one.
pub open spec fn lookup(scopes: Seq<Map<Seq<char>, Tagged>>, name: Seq<char>) -> Option<Tagged> {
    lookup_upto(scopes, scopes.len(), name)
}

/// The scope that the first `n` bindings of `s` make, a later binding of a
/// name replacing an earlier one.
pub open spec fn frame_map(s: Seq<(String, Proventus)>, n: nat) -> Map<Seq<char>, Tagged>
    decreases n,
{
    if n == 0 || n > s.len() {
        Map::empty()
    } else {
        frame_map(s, (n - 1) as nat).insert(s[n - 1].0@, s[n - 1].1@)
    }
}

pub proof fn lemma_frame_map_push(s: Seq<(String, Proventus)>, x: (String, Proventus), n: nat)
    requires
        n <= s.len(),
    ensures
        frame_map(s.push(x), n) == frame_map(s, n),
    decreases n,
{
    if n > 0 {
        lemma_frame_map_push(s, x, (n - 1) as nat);
    }
}

impl Env {
    /// This environment after binding `name` to `value` in its innermost scope.
    pub open spec fn declared(self, name: Seq<char>, value: Tagged) -> Env {
        let last = self.scopes.len() - 1;
        Env { scopes: self.scopes.update(last, self.scopes[last].insert(name, value)), ..self }
    }
}

/// Scopes of bindings, innermost last, and the statement window of the program
/// being evaluated.
///
/// A call opens a scope on top of its caller's instead of copying them: the
/// body sees the caller's bindings as they stand once the arguments are
/// evaluated, and what the body declares stays in its own scope, which closes
/// when the call returns.
pub struct Environment {
    scopes: Vec<Vec<(String, Proventus)>>,
    statements: Vec<Node>,
    cursor: usize,
}

impl Environment {
    pub closed spec fn view(&self) -> Env {
        Env {
            scopes: Seq::new(
                self.scopes@.len(),
                |i: int| frame_map(self.scopes@[i]@, self.scopes@[i]@.len()),
            ),
            window: node_terms(self.statements@, self.statements@.len()),
            cursor: self.cursor as int,
        }
    }

    /// An environment with one empty scope and an empty statement window.
    pub fn new() -> (r: Environment)
        ensures
            r@ == (Env { scopes: seq![Map::empty()], window: Seq::empty(), cursor: 0 }),
    {
        let mut scopes: Vec<Vec<(String, Proventus)>> = Vec::new();
        scopes.push(Vec::new());
        let r = Environment { scopes, statements: Vec::new(), cursor: 0 };
        assert(r@.scopes =~= seq![Map::empty()]);
        r
    }

    /// Binds the name of `target` to `value` in the innermost scope.
    pub fn declare(&mut self, target: &Node, value: Proventus) -> (r: Result<(), EvalError>)
        requires
            old(self)@.scopes.len() > 0,
        ensures
            match target@ {
                Term::Identifier { symbol } => r is Ok && final(self)@ == old(self)@.declared(symbol, value@),
                _ => r == Err::<(), EvalError>(EvalError::BindingTargetError) && final(self)@ == old(self)@,
            },
    {
        match &target.kind {
            NodeKind::Identifier { symbol } => {
                let ghost before = self@;
                let ghost name = symbol@;
                let ghost v = value@;
                let mut top = self.scopes.pop().unwrap();
                let ghost top0 = top@;
                top.push((symbol.clone(), value));
                self.scopes.push(top);
                proof {
                    let n = top0.len();
                    lemma_frame_map_push(top0, top@[n as int], n);
                    assert(self@.scopes =~= before.declared(name, v).scopes);
                }
                Ok(())
            },
            _ => Err(EvalError::BindingTargetError),
        }
    }

    /// The value that the innermost scope binding `name` gives it.
    pub fn resolve(&self, name: &String) -> (r: Option<&Proventus>)
        ensures
            match lookup(self@.scopes, name@) {
                Some(v) => r is Some && r->0@ == v,
                None => r is None,
            },
    {
        let mut i: usize = self.scopes.len();
        while i > 0
            invariant
                i <= self.scopes@.len(),
                lookup(self@.scopes, name@) == lookup_upto(self@.scopes, i as nat, name@),
            decreases i,
        {
            let scope = &self.scopes[i - 1];
            let mut j: usize = scope.len();
            while j > 0
                invariant
                    0 < i <= self.scopes@.len(),
                    *scope == self.scopes@[i - 1],
                    lookup(self@.scopes, name@) == lookup_upto(self@.scopes, i as nat, name@),
                    j <= scope@.len(),
                    frame_map(scope@, scope@.len()).contains_key(name@) ==> frame_map(scope@, j as nat).contains_key(name@)
                        && frame_map(scope@, scope@.len())[name@] == frame_map(scope@, j as nat)[name@],
                    !frame_map(scope@, scope@.len()).contains_key(name@) ==> !frame_map(scope@, j as nat).contains_key(name@),
                decreases j,
            {
                if scope[j - 1].0 == *name {
                    assert(self@.scopes[i - 1] == frame_map(scope@, scope@.len()));
                    return Some(&scope[j - 1].1);
                }
                j = j - 1;
            }
            assert(self@.scopes[i - 1] == frame_map(scope@, scope@.len()));
            i = i - 1;
        }
        None
    }

    /// Replaces the statement window by `statements` and resets the cursor.
    pub fn load_statements(&mut self, statements: Vec<Node>)
        ensures
            final(self)@ == (Env {
                window: node_terms(statements@, statements@.len()),
                cursor: 0,
                ..old(self)@
            }),
    {
        self.statements = statements;
        self.cursor = 0;
    }

    /// The position of the cursor in the statement window.
    pub fn current_index(&self) -> (r: usize)
        ensures
            r == self@.cursor,
    {
        self.cursor
    }

    /// Moves the cursor `by` statements on.
    pub fn advance(&mut self, by: usize)
        requires
            old(self)@.cursor + by <= usize::MAX,
        ensures
            final(self)@ == (Env { cursor: old(self)@.cursor + by, ..old(self)@ }),
    {
        self.cursor = self.cursor + by;
    }

    /// The number of statements in the window.
    pub fn window_len(&self) -> (r: usize)
        ensures
            r == self@.window.len(),
    {
        proof {
            lemma_node_terms(self.statements@, self.statements@.len());
        }
        self.statements.len()
    }

    /// The statement at `index` in the window.
    pub fn statement_at(&self, index: usize) -> (r: Option<&Node>)
        ensures
            index < self@.window.len() ==> r is Some && r->0@ == self@.window[index as int],
            index >= self@.window.len() ==> r is None,
    {
        proof {
            lemma_node_terms(self.statements@, self.statements@.len());
        }
        if index < self.statements.len() {
            Some(&self.statements[index])
        } else {
            None
        }
    }

    /// Opens a scope holding `frame` for a call, with an empty statement
    /// window; returns the window that was open before.
    pub fn enter_scope(&mut self, frame: Vec<(String, Proventus)>) -> (window: Vec<Node>)
        ensures
            node_terms(window@, window@.len()) == old(self)@.window,
            final(self)@ == (Env {
                scopes: old(self)@.scopes.push(frame_map(frame@, frame@.len())),
                window: Seq::empty(),
                cursor: 0,
            }),
    {
        let ghost before = self@;
        let mut window: Vec<Node> = Vec::new();
        std::mem::swap(&mut window, &mut self.statements);
        self.scopes.push(frame);
        self.cursor = 0;
        assert(self@.scopes =~= before.scopes.push(frame_map(frame@, frame@.len())));
        window
    }

    /// Closes the innermost scope and reopens `window` at `cursor`.
    pub fn leave_scope(&mut self, window: Vec<Node>, cursor: usize)
        requires
            old(self)@.scopes.len() > 0,
        ensures
            final(self)@ == (Env {
                scopes: old(self)@.scopes.drop_last(),
                window: node_terms(window@, window@.len()),
                cursor: cursor as int,
            }),
    {
        let ghost before = self@;
        self.scopes.pop();
        self.statements = window;
        self.cursor = cursor;
        assert(self@.scopes =~= before.scopes.drop_last());
    }
}

} // verus!
