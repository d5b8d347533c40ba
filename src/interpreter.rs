use vstd::arithmetic::power::pow;
use vstd::prelude::*;

use crate::ast::{
    boxed_terms, duplicate_nodes, entry_terms, lemma_boxed_terms, lemma_entry_terms, lemma_node_terms,
    lemma_pair_views, node_terms, pair_views, tagged, unbox_nodes, EvalError, Fructa, Literal, Node,
    NodeKind, NodeValue, Operator, Proventus, Tagged, Term, Value, STEP_ID,
};
use crate::env::{frame_map, lemma_frame_map_push, lookup, lookup_upto, Env, Environment};

verus! {

/// Whether `x` is a 32-bit signed integer.
pub open spec fn fits(x: int) -> bool {
    i32::MIN <= x <= i32::MAX
}

/// A number result, or a failure where `x` leaves the 32-bit range.
pub open spec fn number(x: int) -> Result<Tagged, EvalError> {
    if fits(x) {
        Ok(tagged(Value::Number(x as i32)))
    } else {
        Err(EvalError::InvalidOperandError)
    }
}

/// The absolute value of `x`.
pub open spec fn abs(x: int) -> int {
    if x < 0 {
        -x
    } else {
        x
    }
}

/// Integer division rounding towards zero.
pub open spec fn quotient(a: int, b: int) -> int {
    let q = abs(a) / abs(b);
    if (a < 0) == (b < 0) {
        q
    } else {
        -q
    }
}

/// The result of applying `op` to the numbers `a` and `b`.
pub open spec fn arith(op: Operator, a: i32, b: i32) -> Result<Tagged, EvalError> {
    match op {
        Operator::Addition => number(a + b),
        Operator::Substraction => number(a - b),
        Operator::Multiplication => number(a * b),
        Operator::Division => if b == 0 {
            Err(EvalError::DivisionError)
        } else {
            number(quotient(a as int, b as int))
        },
        Operator::Exponentiation => if b < 0 {
            Err(EvalError::ExponentRangeError)
        } else {
            number(pow(a as int, b as nat))
        },
    }
}

/// The number a numeric literal denotes; a payload that is not an integer counts as zero.
pub open spec fn literal_number(value: Literal) -> i32 {
    match value {
        Literal::Integer(i) => i,
        _ => 0,
    }
}

/// Evaluates `t` in `env`, where calls may nest `fuel` deep: the result and
/// the environment afterwards.
pub open spec fn eval(t: Term, env: Env, fuel: nat) -> (Result<Tagged, EvalError>, Env)
    decreases fuel, 1nat, t, 0int,
{
    match t {
        Term::Program { body, id } => {
            let start = Env { window: body, cursor: 0, ..env };
            let (r, e) = run(body, 0, start, Tagged { value: Value::Null, id: 0 }, fuel);
            match r {
                Ok(v) => (Ok(Tagged { id, ..v }), e),
                Err(x) => (Err(x), e),
            }
        },
        Term::Identifier { symbol } => match lookup(env.scopes, symbol) {
            None => (Err(EvalError::UnboundNameError), env),
            Some(v) => match v.value {
                Value::Number(i) => (Ok(tagged(Value::Number(i))), env),
                Value::Closure(params, body) => call(params, body, env, fuel),
                _ => (Err(EvalError::UncallableValueError), env),
            },
        },
        Term::NumericLiteral { value } => (Ok(tagged(Value::Number(literal_number(value)))), env),
        Term::NullLiteral { value: _ } => (Ok(tagged(Value::Null)), env),
        Term::BinaryExpression { left, right, operator } => {
            let (l, e1) = eval(*left, env, fuel);
            match l {
                Err(x) => (Err(x), e1),
                Ok(lv) => match lv.value {
                    Value::Number(a) => {
                        let (r, e2) = eval(*right, e1, fuel);
                        match r {
                            Err(x) => (Err(x), e2),
                            Ok(rv) => match rv.value {
                                Value::Number(b) => (arith(operator, a, b), e2),
                                _ => (Err(EvalError::OperandTypeError), e2),
                            },
                        }
                    },
                    _ => (Err(EvalError::OperandTypeError), e1),
                },
            }
        },
        Term::Config { entries } => {
            let (r, e) = build(entries, 0, env, Seq::empty(), fuel);
            match r {
                Ok(s) => (Ok(tagged(Value::Object(s))), e),
                Err(x) => (Err(x), e),
            }
        },
        Term::FunctionDeclaration { name, params, body } => match *name {
            Term::Identifier { symbol } => (
                Ok(tagged(Value::Null)),
                env.declared(symbol, tagged(Value::Closure(params, *body))),
            ),
            _ => (Err(EvalError::BindingTargetError), env),
        },
        Term::Expression => (Err(EvalError::UnknownNodeError), env),
        Term::Stmt => (Err(EvalError::UnknownNodeError), env),
    }
}

/// Runs the statements of a program from position `i` on, where `last` is the
/// result of the last statement evaluated so far. A statement is evaluated
/// only when the cursor stands on it; a call moves the cursor past the
/// statements it took as arguments, which are then skipped.
pub open spec fn run(body: Seq<Term>, i: nat, env: Env, last: Tagged, fuel: nat) -> (Result<Tagged, EvalError>, Env)
    decreases fuel, 1nat, body, body.len() - i,
{
    if i >= body.len() {
        (Ok(last), env)
    } else if i != env.cursor {
        run(body, i + 1, env, last, fuel)
    } else {
        let (r, e) = eval(body[i as int], env, fuel);
        match r {
            Err(x) => (Err(x), e),
            Ok(v) => if e.cursor + 1 > usize::MAX {
                (Err(EvalError::ArgumentSourceError), e)
            } else {
                run(body, i + 1, Env { cursor: e.cursor + 1, ..e }, v, fuel)
            },
        }
    }
}

/// Calls a function with parameters `params` and body `body` from `env`: its
/// arguments are the statements that follow the cursor in the window.
pub open spec fn call(params: Seq<Term>, body: Term, env: Env, fuel: nat) -> (Result<Tagged, EvalError>, Env)
    decreases fuel, 0nat, body, 0int,
{
    if fuel == 0 {
        (Err(EvalError::CallDepthError), env)
    } else {
        let (r, e) = bind(params, 0, env, Map::empty(), (fuel - 1) as nat);
        match r {
            Err(x) => (Err(x), e),
            Ok(frame) => if e.cursor + params.len() > usize::MAX {
                (Err(EvalError::ArgumentSourceError), e)
            } else {
                let caller = Env { cursor: e.cursor + params.len(), ..e };
                let callee = Env { scopes: caller.scopes.push(frame), window: Seq::empty(), cursor: 0 };
                (eval(body, callee, (fuel - 1) as nat).0, caller)
            },
        }
    }
}

/// Binds the parameters from position `k` on: the one at `k` to the statement
/// `k + 1` places after the cursor, evaluated in the calling environment.
pub open spec fn bind(
    params: Seq<Term>,
    k: nat,
    env: Env,
    frame: Map<Seq<char>, Tagged>,
    fuel: nat,
) -> (Result<Map<Seq<char>, Tagged>, EvalError>, Env)
    decreases fuel, 2nat, params, params.len() - k,
{
    if k >= params.len() {
        (Ok(frame), env)
    } else {
        let index = env.cursor + k + 1;
        if index >= env.window.len() {
            (Err(EvalError::ArgumentSourceError), env)
        } else {
            let (a, e) = eval(env.window[index], env, fuel);
            match a {
                Err(x) => (Err(x), e),
                Ok(v) => match params[k as int] {
                    Term::Identifier { symbol } => bind(params, k + 1, e, frame.insert(symbol, v), fuel),
                    _ => (Err(EvalError::BindingTargetError), e),
                },
            }
        }
    }
}

/// Evaluates the values of the entries from position `k` on, in order,
/// appending each key with its value's result to `acc`.
pub open spec fn build(
    entries: Seq<(Term, Term)>,
    k: nat,
    env: Env,
    acc: Seq<(Term, Tagged)>,
    fuel: nat,
) -> (Result<Seq<(Term, Tagged)>, EvalError>, Env)
    decreases fuel, 1nat, entries, entries.len() - k,
{
    if k >= entries.len() {
        (Ok(acc), env)
    } else {
        let (a, e) = eval(entries[k as int].1, env, fuel);
        match a {
            Err(x) => (Err(x), e),
            Ok(v) => build(entries, k + 1, e, acc.push((entries[k as int].0, v)), fuel),
        }
    }
}

/// The result of an evaluation as a mathematical value.
pub open spec fn outcome(r: Result<Proventus, EvalError>) -> Result<Tagged, EvalError> {
    match r {
        Ok(p) => Ok(p@),
        Err(x) => Err(x),
    }
}

/// The scopes of `a` and `b` differ in the innermost one at most.
pub open spec fn same_outer(a: Env, b: Env) -> bool {
    a.scopes.len() == b.scopes.len() && a.scopes.drop_last() == b.scopes.drop_last()
}

/// Where `a` ends in a failure, `b` ends in the same failure and environment.
pub open spec fn fails_alike<A, B>(a: (Result<A, EvalError>, Env), b: (Result<B, EvalError>, Env)) -> bool {
    a.0 is Err ==> b.0 is Err && b.0->Err_0 == a.0->Err_0 && b.1 == a.1
}

/// Relies on i32::checked_pow: the power where it fits in 32 bits, else none.
#[verifier::external_body]
fn checked_power(base: i32, exp: u32) -> (r: Option<i32>)
    ensures
        r == (if fits(pow(base as int, exp as nat)) {
            Some(pow(base as int, exp as nat) as i32)
        } else {
            None::<i32>
        }),
{
    base.checked_pow(exp)
}

fn number_result(i: i32) -> (r: Proventus)
    ensures
        r@ == tagged(Value::Number(i)),
{
    Proventus { value: Fructa::Numerum(i), id: STEP_ID }
}

/// Applies `op` to the numbers `a` and `b`.
pub fn apply_operator(op: Operator, a: i32, b: i32) -> (r: Result<Proventus, EvalError>)
    ensures
        outcome(r) == arith(op, a, b),
{
    let q = match op {
        Operator::Addition => a.checked_add(b),
        Operator::Substraction => a.checked_sub(b),
        Operator::Multiplication => a.checked_mul(b),
        Operator::Division => {
            if b == 0 {
                return Err(EvalError::DivisionError);
            }
            let q = a.checked_div(b);
            assert(q == (if fits(quotient(a as int, b as int)) {
                Some(quotient(a as int, b as int) as i32)
            } else {
                None::<i32>
            }));
            q
        },
        Operator::Exponentiation => {
            if b < 0 {
                return Err(EvalError::ExponentRangeError);
            }
            checked_power(a, b as u32)
        },
    };
    match q {
        Some(v) => Ok(number_result(v)),
        None => Err(EvalError::InvalidOperandError),
    }
}

/// Evaluates syntax trees; calls may nest `max_depth` deep.
pub struct Interpreter {
    pub max_depth: u32,
}

impl Interpreter {
    pub fn new(max_depth: u32) -> (r: Interpreter)
        ensures
            r.max_depth == max_depth,
    {
        Interpreter { max_depth }
    }

    /// Evaluates `node` in `env`: the result and the environment afterwards
    /// are those of the evaluation rules, with calls nested `max_depth` deep
    /// at most.
    pub fn evaluate(&self, node: Node, env: &mut Environment) -> (r: Result<Proventus, EvalError>)
        requires
            old(env)@.scopes.len() > 0,
        ensures
            (outcome(r), final(env)@) == eval(node@, old(env)@, self.max_depth as nat),
    {
        self.eval_node(&node, env, self.max_depth)
    }

    fn eval_node(&self, node: &Node, env: &mut Environment, fuel: u32) -> (r: Result<Proventus, EvalError>)
        requires
            old(env)@.scopes.len() > 0,
        ensures
            (outcome(r), final(env)@) == eval(node@, old(env)@, fuel as nat),
            same_outer(final(env)@, old(env)@),
        decreases fuel, 1nat, *node, 0int,
    {
        let ghost env0 = env@;
        match &node.kind {
            NodeKind::Program { body, id } => {
                let ghost bt = boxed_terms(body@, body@.len());
                proof {
                    lemma_boxed_terms(body@, body@.len());
                }
                let stmts = unbox_nodes(body);
                env.load_statements(stmts);
                let ghost start = env@;
                let ghost target = run(bt, 0, start, Tagged { value: Value::Null, id: 0 }, fuel as nat);
                let mut last = Proventus::default();
                let mut i: usize = 0;
                assert(target.0 is Err ==> eval(node@, env0, fuel as nat) == target);
                while i < body.len()
                    invariant
                        i <= body@.len(),
                        bt.len() == body@.len(),
                        forall|j: int| 0 <= j < bt.len() ==> #[trigger] bt[j] == body@[j]@,
                        run(bt, i as nat, env@, last@, fuel as nat) == target,
                        same_outer(env@, env0),
                        env0.scopes.len() > 0,
                        env0 == old(env)@,
                        start == (Env { window: bt, cursor: 0, ..env0 }),
                        target == run(bt, 0, start, Tagged { value: Value::Null, id: 0 }, fuel as nat),
                        target.0 is Err ==> eval(node@, env0, fuel as nat) == target,
                        node.kind == (NodeKind::Program { body: *body, id: *id }),
                    decreases body.len() - i,
                {
                    if i == env.current_index() {
                        proof {
                            vstd::std_specs::vec::axiom_vec_index_decreases(*body, i as int);
                            assert(decreases_to!(*node => node.kind));
                        }
                        match self.eval_node(&body[i], env, fuel) {
                            Ok(v) => {
                                if env.current_index() == usize::MAX {
                                    return Err(EvalError::ArgumentSourceError);
                                }
                                env.advance(1);
                                last = v;
                            },
                            Err(x) => {
                                return Err(x);
                            },
                        }
                    }
                    i = i + 1;
                }
                last.id = *id;
                Ok(last)
            },
            NodeKind::Identifier { symbol } => match env.resolve(symbol) {
                None => Err(EvalError::UnboundNameError),
                Some(p) => match &p.value {
                    Fructa::Numerum(i) => Ok(number_result(*i)),
                    Fructa::Moenus(params, body) => {
                        let ps = duplicate_nodes(params);
                        let b = body.duplicate();
                        self.call(&ps, &b, env, fuel)
                    },
                    _ => Err(EvalError::UncallableValueError),
                },
            },
            NodeKind::NumericLiteral { value } => match value {
                NodeValue::Integer(i) => Ok(number_result(*i)),
                _ => Ok(number_result(0)),
            },
            NodeKind::NullLiteral { value: _ } => Ok(Proventus { value: Fructa::Nullus, id: STEP_ID }),
            NodeKind::BinaryExpression { left, right, operator } => {
                let a = match self.eval_node(left, env, fuel) {
                    Ok(l) => match l.value {
                        Fructa::Numerum(a) => a,
                        _ => {
                            return Err(EvalError::OperandTypeError);
                        },
                    },
                    Err(x) => {
                        return Err(x);
                    },
                };
                let b = match self.eval_node(right, env, fuel) {
                    Ok(r) => match r.value {
                        Fructa::Numerum(b) => b,
                        _ => {
                            return Err(EvalError::OperandTypeError);
                        },
                    },
                    Err(x) => {
                        return Err(x);
                    },
                };
                apply_operator(*operator, a, b)
            },
            NodeKind::Config { arguments } => {
                let ghost et = entry_terms(arguments@, arguments@.len());
                proof {
                    lemma_entry_terms(arguments@, arguments@.len());
                }
                let ghost target = build(et, 0, env@, Seq::empty(), fuel as nat);
                let mut pairs: Vec<(Node, Proventus)> = Vec::new();
                let mut i: usize = 0;
                assert(fails_alike(target, eval(node@, env0, fuel as nat)));
                while i < arguments.len()
                    invariant
                        i <= arguments@.len(),
                        et.len() == arguments@.len(),
                        forall|j: int| 0 <= j < et.len() ==> #[trigger] et[j] == (arguments@[j].0@, arguments@[j].1@),
                        build(et, i as nat, env@, pair_views(pairs@, pairs@.len()), fuel as nat) == target,
                        same_outer(env@, env0),
                        env0.scopes.len() > 0,
                        env0 == old(env)@,
                        target == build(et, 0, env0, Seq::empty(), fuel as nat),
                        fails_alike(target, eval(node@, env0, fuel as nat)),
                        node.kind == (NodeKind::Config { arguments: *arguments }),
                    decreases arguments.len() - i,
                {
                    proof {
                        vstd::std_specs::vec::axiom_vec_index_decreases(*arguments, i as int);
                        assert(decreases_to!(*node => node.kind));
                    }
                    let key = arguments[i].0.duplicate();
                    let v = match self.eval_node(&arguments[i].1, env, fuel) {
                        Ok(v) => v,
                        Err(x) => {
                            return Err(x);
                        },
                    };
                    let ghost p0 = pairs@;
                    let ghost item = (et[i as int].0, v@);
                    pairs.push((key, v));
                    proof {
                        lemma_pair_views(p0, p0.len());
                        lemma_pair_views(pairs@, pairs@.len());
                        assert(pair_views(pairs@, pairs@.len()) =~= pair_views(p0, p0.len()).push(item));
                    }
                    i = i + 1;
                }
                Ok(Proventus { value: Fructa::Causor(pairs), id: STEP_ID })
            },
            NodeKind::FunctionDeclaration { identifier, arguments, statement } => {
                let params = unbox_nodes(arguments);
                let b = statement.duplicate();
                match env.declare(identifier, Proventus { value: Fructa::Moenus(params, b), id: STEP_ID }) {
                    Ok(()) => {
                        proof {
                            assert(env@.scopes.drop_last() =~= env0.scopes.drop_last());
                        }
                        Ok(Proventus { value: Fructa::Nullus, id: STEP_ID })
                    },
                    Err(x) => Err(x),
                }
            },
            NodeKind::Expression => Err(EvalError::UnknownNodeError),
            NodeKind::Stmt => Err(EvalError::UnknownNodeError),
        }
    }

    /// Calls the function with parameters `params` and body `body`, taking its
    /// arguments from the statements that follow the cursor.
    fn call(&self, params: &Vec<Node>, body: &Node, env: &mut Environment, fuel: u32) -> (r: Result<Proventus, EvalError>)
        requires
            old(env)@.scopes.len() > 0,
        ensures
            (outcome(r), final(env)@) == call(node_terms(params@, params@.len()), body@, old(env)@, fuel as nat),
            same_outer(final(env)@, old(env)@),
        decreases fuel, 0nat, *body, 0int,
    {
        if fuel == 0 {
            return Err(EvalError::CallDepthError);
        }
        let ghost pt = node_terms(params@, params@.len());
        proof {
            lemma_node_terms(params@, params@.len());
        }
        let ghost start = env@;
        let ghost target = bind(pt, 0, start, Map::empty(), (fuel - 1) as nat);
        let mut frame: Vec<(String, Proventus)> = Vec::new();
        let mut k: usize = 0;
        assert(fails_alike(target, call(pt, body@, start, fuel as nat)));
        while k < params.len()
            invariant
                k <= params@.len(),
                pt == node_terms(params@, params@.len()),
                pt.len() == params@.len(),
                forall|j: int| 0 <= j < pt.len() ==> #[trigger] pt[j] == params@[j]@,
                bind(pt, k as nat, env@, frame_map(frame@, frame@.len()), (fuel - 1) as nat) == target,
                same_outer(env@, start),
                start.scopes.len() > 0,
                fuel > 0,
                start == old(env)@,
                target == bind(pt, 0, start, Map::empty(), (fuel - 1) as nat),
                fails_alike(target, call(pt, body@, start, fuel as nat)),
            decreases params.len() - k,
        {
            let c = env.current_index();
            let w = env.window_len();
            if k >= w || c >= w - k - 1 {
                return Err(EvalError::ArgumentSourceError);
            }
            let stmt = env.statement_at(c + k + 1).unwrap().duplicate();
            let v = match self.eval_node(&stmt, env, fuel - 1) {
                Ok(v) => v,
                Err(x) => {
                    return Err(x);
                },
            };
            match &params[k].kind {
                NodeKind::Identifier { symbol } => {
                    let ghost f0 = frame@;
                    frame.push((symbol.clone(), v));
                    proof {
                        lemma_frame_map_push(f0, frame@.last(), f0.len());
                    }
                },
                _ => {
                    return Err(EvalError::BindingTargetError);
                },
            }
            k = k + 1;
        }
        let c = env.current_index();
        if c > usize::MAX - params.len() {
            return Err(EvalError::ArgumentSourceError);
        }
        env.advance(params.len());
        let ghost caller = env@;
        let cursor = env.current_index();
        let window = env.enter_scope(frame);
        let r = self.eval_node(body, env, fuel - 1);
        proof {
            assert(env@.scopes.drop_last() =~= caller.scopes);
        }
        env.leave_scope(window, cursor);
        r
    }
}

/// The binary expression applying `op` to the numeric literals `a` and `b`.
pub open spec fn literal_expression(a: i32, b: i32, op: Operator) -> Term {
    Term::BinaryExpression {
        left: Box::new(Term::NumericLiteral { value: Literal::Integer(a) }),
        right: Box::new(Term::NumericLiteral { value: Literal::Integer(b) }),
        operator: op,
    }
}

/// A binary expression over two numbers evaluates to the operator applied to
/// them and leaves the environment as it was: the exact sum, difference,
/// product, quotient rounded towards zero, or power, wherever it fits in 32
/// bits; a zero divisor and a negative exponent fail.
pub proof fn lemma_binary_literals(a: i32, b: i32, op: Operator, env: Env, fuel: nat)
    ensures
        eval(literal_expression(a, b, op), env, fuel) == (arith(op, a, b), env),
        op == Operator::Addition && fits(a + b) ==> arith(op, a, b) == Ok::<Tagged, EvalError>(
            tagged(Value::Number((a + b) as i32)),
        ),
        op == Operator::Substraction && fits(a - b) ==> arith(op, a, b) == Ok::<Tagged, EvalError>(
            tagged(Value::Number((a - b) as i32)),
        ),
        op == Operator::Multiplication && fits(a * b) ==> arith(op, a, b) == Ok::<Tagged, EvalError>(
            tagged(Value::Number((a * b) as i32)),
        ),
        op == Operator::Division && b == 0 ==> arith(op, a, b) == Err::<Tagged, EvalError>(
            EvalError::DivisionError,
        ),
        op == Operator::Division && b != 0 && fits(quotient(a as int, b as int)) ==> arith(op, a, b)
            == Ok::<Tagged, EvalError>(tagged(Value::Number(quotient(a as int, b as int) as i32))),
        op == Operator::Exponentiation && b < 0 ==> arith(op, a, b) == Err::<Tagged, EvalError>(
            EvalError::ExponentRangeError,
        ),
        op == Operator::Exponentiation && b >= 0 && fits(pow(a as int, b as nat)) ==> arith(op, a, b)
            == Ok::<Tagged, EvalError>(tagged(Value::Number(pow(a as int, b as nat) as i32))),
{
    reveal_with_fuel(eval, 2);
}

proof fn lemma_lookup_upto_none(scopes: Seq<Map<Seq<char>, Tagged>>, n: nat, name: Seq<char>)
    requires
        forall|i: int| 0 <= i < scopes.len() ==> !(#[trigger] scopes[i]).contains_key(name),
    ensures
        lookup_upto(scopes, n, name) is None,
    decreases n,
{
    if n > 0 && n <= scopes.len() {
        assert(!scopes[n - 1].contains_key(name));
        lemma_lookup_upto_none(scopes, (n - 1) as nat, name);
    }
}

/// A name that no scope binds fails to resolve, however many scopes there are.
pub proof fn lemma_unbound_name(symbol: Seq<char>, env: Env, fuel: nat)
    requires
        forall|i: int| 0 <= i < env.scopes.len() ==> !(#[trigger] env.scopes[i]).contains_key(symbol),
    ensures
        lookup(env.scopes, symbol) is None,
        eval(Term::Identifier { symbol }, env, fuel) == (Err::<Tagged, EvalError>(EvalError::UnboundNameError), env),
{
    lemma_lookup_upto_none(env.scopes, env.scopes.len(), symbol);
}

/// A configuration of two entries evaluates the first value, then the second
/// in the environment that the first left, each once; its object holds the
/// keys, unevaluated and in order, with the results of their values.
pub proof fn lemma_config_order(k1: Term, v1: Term, k2: Term, v2: Term, env: Env, fuel: nat)
    ensures
        ({
            let (r1, e1) = eval(v1, env, fuel);
            let (r2, e2) = eval(v2, e1, fuel);
            eval(Term::Config { entries: seq![(k1, v1), (k2, v2)] }, env, fuel) == match r1 {
                Err(x) => (Err::<Tagged, EvalError>(x), e1),
                Ok(a) => match r2 {
                    Err(x) => (Err::<Tagged, EvalError>(x), e2),
                    Ok(b) => (Ok(tagged(Value::Object(seq![(k1, a), (k2, b)]))), e2),
                },
            }
        }),
{
    let entries = seq![(k1, v1), (k2, v2)];
    assert(entries.len() == 2 && entries[0] == (k1, v1) && entries[1] == (k2, v2));
    let (r1, e1) = eval(v1, env, fuel);
    let (r2, e2) = eval(v2, e1, fuel);
    let empty = Seq::<(Term, Tagged)>::empty();
    if let Ok(a) = r1 {
        let acc1 = empty.push((k1, a));
        assert(build(entries, 0, env, empty, fuel) == build(entries, 1, e1, acc1, fuel));
        if let Ok(b) = r2 {
            let acc2 = acc1.push((k2, b));
            assert(build(entries, 1, e1, acc1, fuel) == build(entries, 2, e2, acc2, fuel));
            assert(build(entries, 2, e2, acc2, fuel) == (Ok::<Seq<(Term, Tagged)>, EvalError>(acc2), e2));
            assert(acc2 =~= seq![(k1, a), (k2, b)]);
        } else {
            assert(build(entries, 1, e1, acc1, fuel).0 is Err);
        }
    } else {
        assert(build(entries, 0, env, empty, fuel).0 is Err);
    }
}

/// A literal, a binary expression and a name bound to a number evaluate to a
/// result tagged as a step; a program's result carries the program's id.
pub proof fn lemma_result_tags(t: Term, env: Env, fuel: nat)
    ensures
        eval(t, env, fuel).0 is Ok ==> match t {
            Term::NumericLiteral { .. } => eval(t, env, fuel).0->Ok_0.id == STEP_ID,
            Term::NullLiteral { .. } => eval(t, env, fuel).0->Ok_0.id == STEP_ID,
            Term::BinaryExpression { .. } => eval(t, env, fuel).0->Ok_0.id == STEP_ID,
            Term::Identifier { symbol } => lookup(env.scopes, symbol) matches Some(v) && v.value is Number
                ==> eval(t, env, fuel).0->Ok_0.id == STEP_ID,
            Term::Program { body: _, id } => eval(t, env, fuel).0->Ok_0.id == id,
            _ => true,
        },
{
}

} // verus!
