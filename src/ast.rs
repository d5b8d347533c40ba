use vstd::prelude::*;

verus! {

/// The arithmetic operators of a binary expression.
#[derive(Clone, Copy, Debug, PartialEq, Eq, Structural)]
pub enum Operator {
    Addition,
    Substraction,
    Multiplication,
    Division,
    Exponentiation,
}

/// Why an evaluation, or a change to a tree, failed.
#[derive(Clone, Copy, Debug, PartialEq, Eq, Structural)]
pub enum EvalError {
    /// A tree operation applied to a node of the wrong shape.
    StructuralError,
    /// A name was to be bound to a node that is not an identifier.
    BindingTargetError,
    /// No scope binds the name.
    UnboundNameError,
    /// An operand of a binary expression is not a number.
    OperandTypeError,
    /// The operands give a result outside the 32-bit range.
    InvalidOperandError,
    /// Division by zero.
    DivisionError,
    /// A negative exponent.
    ExponentRangeError,
    /// A name bound to a value that is neither a number nor a function.
    UncallableValueError,
    /// A node kind that has no evaluation rule.
    UnknownNodeError,
    /// A call found no statement in its window for one of its arguments.
    ArgumentSourceError,
    /// Calls nested deeper than the interpreter allows.
    CallDepthError,
}

/// The literal payload carried by literal nodes.
#[derive(Debug)]
pub enum NodeValue {
    Integer(i32),
    String(String),
    Nullus,
}

/// The shape of a syntax tree node.
#[derive(Debug)]
#[allow(inconsistent_fields)]
pub enum NodeKind {
    Program { body: Vec<Box<Node>>, id: i32 },
    Identifier { symbol: String },
    NumericLiteral { value: NodeValue },
    Expression,
    BinaryExpression { left: Box<Node>, right: Box<Node>, operator: Operator },
    Stmt,
    NullLiteral { value: NodeValue },
    Config { arguments: Vec<(Box<Node>, Box<Node>)> },
    FunctionDeclaration { identifier: Box<Node>, arguments: Vec<Box<Node>>, statement: Box<Node> },
}

/// A syntax tree node; it owns its children.
#[derive(Debug)]
pub struct Node {
    pub kind: NodeKind,
}

/// A runtime value.
#[derive(Debug)]
pub enum Fructa {
    Nullus,
    Numerum(i32),
    Filum(String),
    /// A declared function: its parameters and its body.
    Moenus(Vec<Node>, Node),
    /// A host-provided function, named by its entry in the host's registry.
    BuiltIn(u32),
    /// An object built from a configuration literal: its keys and evaluated values.
    Causor(Vec<(Node, Proventus)>),
}

/// The result of an evaluation: a value and its provenance tag.
#[derive(Debug)]
pub struct Proventus {
    pub value: Fructa,
    pub id: i32,
}

/// A literal payload as a mathematical value.
pub enum Literal {
    Integer(i32),
    Text(Seq<char>),
    Nullus,
}

/// A syntax tree as a mathematical value.
#[allow(inconsistent_fields)]
pub enum Term {
    Program { body: Seq<Term>, id: i32 },
    Identifier { symbol: Seq<char> },
    NumericLiteral { value: Literal },
    Expression,
    BinaryExpression { left: Box<Term>, right: Box<Term>, operator: Operator },
    Stmt,
    NullLiteral { value: Literal },
    Config { entries: Seq<(Term, Term)> },
    FunctionDeclaration { name: Box<Term>, params: Seq<Term>, body: Box<Term> },
}

/// A runtime value as a mathematical value.
pub enum Value {
    Null,
    Number(i32),
    Text(Seq<char>),
    Closure(Seq<Term>, Term),
    Native(u32),
    Object(Seq<(Term, Tagged)>),
}

/// An evaluation result as a mathematical value.
pub struct Tagged {
    pub value: Value,
    pub id: i32,
}

/// The tag of every intermediate evaluation result.
pub const STEP_ID: i32 = -1;

pub open spec fn tagged(value: Value) -> Tagged {
    Tagged { value, id: STEP_ID }
}

impl NodeValue {
    pub open spec fn view(self) -> Literal {
        match self {
            NodeValue::Integer(i) => Literal::Integer(i),
            NodeValue::String(s) => Literal::Text(s@),
            NodeValue::Nullus => Literal::Nullus,
        }
    }

    pub fn duplicate(&self) -> (r: NodeValue)
        ensures
            r == *self,
    {
        match self {
            NodeValue::Integer(i) => NodeValue::Integer(*i),
            NodeValue::String(s) => NodeValue::String(s.clone()),
            NodeValue::Nullus => NodeValue::Nullus,
        }
    }
}

impl Node {
    pub open spec fn view(self) -> Term
        decreases self, 0nat,
    {
        match self.kind {
            NodeKind::Program { body, id } => Term::Program { body: boxed_terms(body@, body@.len()), id },
            NodeKind::Identifier { symbol } => Term::Identifier { symbol: symbol@ },
            NodeKind::NumericLiteral { value } => Term::NumericLiteral { value: value.view() },
            NodeKind::Expression => Term::Expression,
            NodeKind::BinaryExpression { left, right, operator } => Term::BinaryExpression {
                left: Box::new(left.view()),
                right: Box::new(right.view()),
                operator,
            },
            NodeKind::Stmt => Term::Stmt,
            NodeKind::NullLiteral { value } => Term::NullLiteral { value: value.view() },
            NodeKind::Config { arguments } => Term::Config {
                entries: entry_terms(arguments@, arguments@.len()),
            },
            NodeKind::FunctionDeclaration { identifier, arguments, statement } => Term::FunctionDeclaration {
                name: Box::new(identifier.view()),
                params: boxed_terms(arguments@, arguments@.len()),
                body: Box::new(statement.view()),
            },
        }
    }
}

/// The views of the first `n` boxed nodes of `s`.
pub open spec fn boxed_terms(s: Seq<Box<Node>>, n: nat) -> Seq<Term>
    decreases s, n,
{
    if n == 0 || n > s.len() {
        Seq::empty()
    } else {
        boxed_terms(s, (n - 1) as nat).push(s[n - 1].view())
    }
}

/// The views of the first `n` nodes of `s`.
pub open spec fn node_terms(s: Seq<Node>, n: nat) -> Seq<Term>
    decreases s, n,
{
    if n == 0 || n > s.len() {
        Seq::empty()
    } else {
        node_terms(s, (n - 1) as nat).push(s[n - 1].view())
    }
}

/// The views of the first `n` key/value node pairs of `s`.
pub open spec fn entry_terms(s: Seq<(Box<Node>, Box<Node>)>, n: nat) -> Seq<(Term, Term)>
    decreases s, n,
{
    if n == 0 || n > s.len() {
        Seq::empty()
    } else {
        entry_terms(s, (n - 1) as nat).push((s[n - 1].0.view(), s[n - 1].1.view()))
    }
}

impl Proventus {
    pub open spec fn view(self) -> Tagged
        decreases self, 0nat,
    {
        Tagged {
            value: match self.value {
                Fructa::Nullus => Value::Null,
                Fructa::Numerum(i) => Value::Number(i),
                Fructa::Filum(s) => Value::Text(s@),
                Fructa::Moenus(params, body) => Value::Closure(node_terms(params@, params@.len()), body@),
                Fructa::BuiltIn(f) => Value::Native(f),
                Fructa::Causor(pairs) => Value::Object(pair_views(pairs@, pairs@.len())),
            },
            id: self.id,
        }
    }
}

/// The views of the first `n` key/result pairs of `s`.
pub open spec fn pair_views(s: Seq<(Node, Proventus)>, n: nat) -> Seq<(Term, Tagged)>
    decreases s, n,
{
    if n == 0 || n > s.len() {
        Seq::empty()
    } else {
        pair_views(s, (n - 1) as nat).push((s[n - 1].0@, s[n - 1].1@))
    }
}

pub proof fn lemma_boxed_terms(s: Seq<Box<Node>>, n: nat)
    requires
        n <= s.len(),
    ensures
        boxed_terms(s, n).len() == n,
        forall|i: int| 0 <= i < n ==> #[trigger] boxed_terms(s, n)[i] == s[i]@,
    decreases n,
{
    if n > 0 {
        lemma_boxed_terms(s, (n - 1) as nat);
    }
}

pub proof fn lemma_node_terms(s: Seq<Node>, n: nat)
    requires
        n <= s.len(),
    ensures
        node_terms(s, n).len() == n,
        forall|i: int| 0 <= i < n ==> #[trigger] node_terms(s, n)[i] == s[i]@,
    decreases n,
{
    if n > 0 {
        lemma_node_terms(s, (n - 1) as nat);
    }
}

pub proof fn lemma_entry_terms(s: Seq<(Box<Node>, Box<Node>)>, n: nat)
    requires
        n <= s.len(),
    ensures
        entry_terms(s, n).len() == n,
        forall|i: int| 0 <= i < n ==> #[trigger] entry_terms(s, n)[i] == (s[i].0@, s[i].1@),
    decreases n,
{
    if n > 0 {
        lemma_entry_terms(s, (n - 1) as nat);
    }
}

pub proof fn lemma_pair_views(s: Seq<(Node, Proventus)>, n: nat)
    requires
        n <= s.len(),
    ensures
        pair_views(s, n).len() == n,
        forall|i: int| 0 <= i < n ==> #[trigger] pair_views(s, n)[i] == (s[i].0@, s[i].1@),
    decreases n,
{
    if n > 0 {
        lemma_pair_views(s, (n - 1) as nat);
    }
}

/// The two sequences of boxed nodes have the same view.
pub open spec fn same_boxed(a: Seq<Box<Node>>, b: Seq<Box<Node>>) -> bool {
    a.len() == b.len() && forall|i: int| 0 <= i < a.len() ==> #[trigger] a[i]@ == b[i]@
}

pub proof fn lemma_same_boxed(a: Seq<Box<Node>>, b: Seq<Box<Node>>)
    requires
        same_boxed(a, b),
    ensures
        boxed_terms(a, a.len()) == boxed_terms(b, b.len()),
{
    lemma_boxed_terms(a, a.len());
    lemma_boxed_terms(b, b.len());
    assert(boxed_terms(a, a.len()) =~= boxed_terms(b, b.len()));
}

fn duplicate_boxes(v: &Vec<Box<Node>>) -> (r: Vec<Box<Node>>)
    ensures
        same_boxed(r@, v@),
    decreases *v, 1nat,
{
    let mut r: Vec<Box<Node>> = Vec::new();
    let mut i: usize = 0;
    while i < v.len()
        invariant
            i <= v.len(),
            r@.len() == i,
            forall|j: int| 0 <= j < i ==> #[trigger] r@[j]@ == v@[j]@,
        decreases v.len() - i,
    {
        proof {
            vstd::std_specs::vec::axiom_vec_index_decreases(*v, i as int);
        }
        let n = v[i].duplicate();
        r.push(Box::new(n));
        i = i + 1;
    }
    r
}

fn duplicate_entries(v: &Vec<(Box<Node>, Box<Node>)>) -> (r: Vec<(Box<Node>, Box<Node>)>)
    ensures
        entry_terms(r@, r@.len()) == entry_terms(v@, v@.len()),
    decreases *v, 1nat,
{
    let mut r: Vec<(Box<Node>, Box<Node>)> = Vec::new();
    let mut i: usize = 0;
    while i < v.len()
        invariant
            i <= v.len(),
            r@.len() == i,
            forall|j: int| 0 <= j < i ==> #[trigger] r@[j].0@ == v@[j].0@ && r@[j].1@ == v@[j].1@,
        decreases v.len() - i,
    {
        proof {
            vstd::std_specs::vec::axiom_vec_index_decreases(*v, i as int);
        }
        let k = v[i].0.duplicate();
        let x = v[i].1.duplicate();
        r.push((Box::new(k), Box::new(x)));
        i = i + 1;
    }
    proof {
        lemma_entry_terms(r@, r@.len());
        lemma_entry_terms(v@, v@.len());
        assert(entry_terms(r@, r@.len()) =~= entry_terms(v@, v@.len()));
    }
    r
}

impl Node {
    /// A copy of this node, equal to it as a syntax tree.
    pub fn duplicate(&self) -> (r: Node)
        ensures
            r@ == self@,
        decreases *self, 0nat,
    {
        let kind = match &self.kind {
            NodeKind::Program { body, id } => {
                let b = duplicate_boxes(body);
                proof {
                    lemma_same_boxed(b@, body@);
                }
                NodeKind::Program { body: b, id: *id }
            },
            NodeKind::Identifier { symbol } => NodeKind::Identifier { symbol: symbol.clone() },
            NodeKind::NumericLiteral { value } => NodeKind::NumericLiteral { value: value.duplicate() },
            NodeKind::Expression => NodeKind::Expression,
            NodeKind::BinaryExpression { left, right, operator } => NodeKind::BinaryExpression {
                left: Box::new(left.duplicate()),
                right: Box::new(right.duplicate()),
                operator: *operator,
            },
            NodeKind::Stmt => NodeKind::Stmt,
            NodeKind::NullLiteral { value } => NodeKind::NullLiteral { value: value.duplicate() },
            NodeKind::Config { arguments } => NodeKind::Config { arguments: duplicate_entries(arguments) },
            NodeKind::FunctionDeclaration { identifier, arguments, statement } => {
                let a = duplicate_boxes(arguments);
                proof {
                    lemma_same_boxed(a@, arguments@);
                }
                NodeKind::FunctionDeclaration {
                    identifier: Box::new(identifier.duplicate()),
                    arguments: a,
                    statement: Box::new(statement.duplicate()),
                }
            },
        };
        Node { kind }
    }
}

/// Copies of the nodes of `v`, out of their boxes.
pub fn unbox_nodes(v: &Vec<Box<Node>>) -> (r: Vec<Node>)
    ensures
        node_terms(r@, r@.len()) == boxed_terms(v@, v@.len()),
{
    let mut r: Vec<Node> = Vec::new();
    let mut i: usize = 0;
    while i < v.len()
        invariant
            i <= v.len(),
            r@.len() == i,
            forall|j: int| 0 <= j < i ==> #[trigger] r@[j]@ == v@[j]@,
        decreases v.len() - i,
    {
        r.push(v[i].duplicate());
        i = i + 1;
    }
    proof {
        lemma_node_terms(r@, r@.len());
        lemma_boxed_terms(v@, v@.len());
        assert(node_terms(r@, r@.len()) =~= boxed_terms(v@, v@.len()));
    }
    r
}

/// Copies of the nodes of `v`.
pub fn duplicate_nodes(v: &Vec<Node>) -> (r: Vec<Node>)
    ensures
        node_terms(r@, r@.len()) == node_terms(v@, v@.len()),
{
    let mut r: Vec<Node> = Vec::new();
    let mut i: usize = 0;
    while i < v.len()
        invariant
            i <= v.len(),
            r@.len() == i,
            forall|j: int| 0 <= j < i ==> #[trigger] r@[j]@ == v@[j]@,
        decreases v.len() - i,
    {
        r.push(v[i].duplicate());
        i = i + 1;
    }
    proof {
        lemma_node_terms(r@, r@.len());
        lemma_node_terms(v@, v@.len());
        assert(node_terms(r@, r@.len()) =~= node_terms(v@, v@.len()));
    }
    r
}

impl Default for Proventus {
    /// The result before anything is evaluated: null, tagged 0.
    fn default() -> (r: Proventus)
        ensures
            r@ == (Tagged { value: Value::Null, id: 0 }),
    {
        Proventus { value: Fructa::Nullus, id: 0 }
    }
}

impl Node {
    /// Appends `node` to the statements of a program; any other node is left
    /// as it is and the call fails.
    #[allow(non_snake_case)]
    pub fn appendToBody(&mut self, node: Node) -> (r: Result<(), EvalError>)
        ensures
            match old(self)@ {
                Term::Program { body, id } => r is Ok && final(self)@ == (Term::Program { body: body.push(node@), id }),
                _ => r == Err::<(), EvalError>(EvalError::StructuralError) && *final(self) == *old(self),
            },
    {
        match &mut self.kind {
            NodeKind::Program { body, id: _ } => {
                let ghost b0 = body@;
                let ghost t = node@;
                body.push(Box::new(node));
                proof {
                    lemma_boxed_terms(b0, b0.len());
                    lemma_boxed_terms(body@, body@.len());
                    assert(boxed_terms(body@, body@.len()) =~= boxed_terms(b0, b0.len()).push(t));
                }
                Ok(())
            },
            _ => Err(EvalError::StructuralError),
        }
    }
}

} // verus!
