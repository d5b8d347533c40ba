use juxta::{apply_operator, Environment, EvalError, Fructa, Interpreter, Node, NodeKind, NodeValue, Operator, Proventus};

fn num(i: i32) -> Node {
    Node { kind: NodeKind::NumericLiteral { value: NodeValue::Integer(i) } }
}

fn null() -> Node {
    Node { kind: NodeKind::NullLiteral { value: NodeValue::Nullus } }
}

fn ident(s: &str) -> Node {
    Node { kind: NodeKind::Identifier { symbol: s.to_string() } }
}

fn bin(l: Node, r: Node, operator: Operator) -> Node {
    Node { kind: NodeKind::BinaryExpression { left: Box::new(l), right: Box::new(r), operator } }
}

fn program(stmts: Vec<Node>, id: i32) -> Node {
    Node { kind: NodeKind::Program { body: stmts.into_iter().map(Box::new).collect(), id } }
}

fn func(name: &str, params: &[&str], body: Node) -> Node {
    Node {
        kind: NodeKind::FunctionDeclaration {
            identifier: Box::new(ident(name)),
            arguments: params.iter().map(|p| Box::new(ident(p))).collect(),
            statement: Box::new(body),
        },
    }
}

fn config(entries: Vec<(Node, Node)>) -> Node {
    Node { kind: NodeKind::Config { arguments: entries.into_iter().map(|(k, v)| (Box::new(k), Box::new(v))).collect() } }
}

fn run(node: Node) -> Result<Proventus, EvalError> {
    let mut env = Environment::new();
    Interpreter::new(64).evaluate(node, &mut env)
}

fn number_of(r: Result<Proventus, EvalError>) -> (i32, i32) {
    match r {
        Ok(Proventus { value: Fructa::Numerum(i), id }) => (i, id),
        other => panic!("expected a number, got {:?}", other),
    }
}

fn error_of(r: Result<Proventus, EvalError>) -> EvalError {
    match r {
        Err(e) => e,
        Ok(p) => panic!("expected an error, got {:?}", p),
    }
}

#[test]
fn addition_subtraction_multiplication_are_exact() {
    assert_eq!(number_of(run(bin(num(3), num(4), Operator::Addition))), (7, -1));
    assert_eq!(number_of(run(bin(num(3), num(10), Operator::Substraction))), (-7, -1));
    assert_eq!(number_of(run(bin(num(-6), num(7), Operator::Multiplication))), (-42, -1));
}

#[test]
fn division_truncates_towards_zero() {
    assert_eq!(number_of(run(bin(num(7), num(2), Operator::Division))), (3, -1));
    assert_eq!(number_of(run(bin(num(-7), num(2), Operator::Division))), (-3, -1));
    assert_eq!(number_of(run(bin(num(7), num(-2), Operator::Division))), (-3, -1));
}

#[test]
fn division_by_zero_fails() {
    assert_eq!(error_of(run(bin(num(5), num(0), Operator::Division))), EvalError::DivisionError);
}

#[test]
fn exponentiation_gives_the_power() {
    assert_eq!(number_of(run(bin(num(2), num(10), Operator::Exponentiation))), (1024, -1));
    assert_eq!(number_of(run(bin(num(-3), num(3), Operator::Exponentiation))), (-27, -1));
    assert_eq!(number_of(run(bin(num(9), num(0), Operator::Exponentiation))), (1, -1));
}

#[test]
fn negative_exponent_fails() {
    assert_eq!(error_of(run(bin(num(2), num(-1), Operator::Exponentiation))), EvalError::ExponentRangeError);
}

#[test]
fn results_outside_32_bits_fail() {
    assert_eq!(error_of(run(bin(num(i32::MAX), num(1), Operator::Addition))), EvalError::InvalidOperandError);
    assert_eq!(error_of(run(bin(num(i32::MIN), num(-1), Operator::Division))), EvalError::InvalidOperandError);
    assert_eq!(error_of(run(bin(num(2), num(31), Operator::Exponentiation))), EvalError::InvalidOperandError);
}

#[test]
fn apply_operator_on_numbers() {
    assert_eq!(number_of(apply_operator(Operator::Multiplication, 12, 12)), (144, -1));
    assert_eq!(error_of(apply_operator(Operator::Division, 1, 0)), EvalError::DivisionError);
}

#[test]
fn non_numeric_operand_fails() {
    assert_eq!(error_of(run(bin(null(), num(1), Operator::Addition))), EvalError::OperandTypeError);
    assert_eq!(error_of(run(bin(num(1), null(), Operator::Addition))), EvalError::OperandTypeError);
}

#[test]
fn juxtaposed_call_consumes_following_statements() {
    let p = program(
        vec![
            func("f", &["x", "y"], bin(ident("x"), ident("y"), Operator::Addition)),
            ident("f"),
            num(3),
            num(4),
        ],
        5,
    );
    let mut env = Environment::new();
    let r = Interpreter::new(64).evaluate(p, &mut env);
    // Had the 4 been evaluated on its own, it would be the last result.
    assert_eq!(number_of(r), (7, 5));
    assert_eq!(env.current_index(), 4);
}

#[test]
fn program_result_is_its_last_evaluated_statement() {
    assert_eq!(number_of(run(program(vec![num(1), num(2)], 9))), (2, 9));
}

#[test]
fn empty_program_gives_null_with_its_id() {
    let r = run(program(vec![], 3)).unwrap();
    assert!(matches!(r.value, Fructa::Nullus));
    assert_eq!(r.id, 3);
}

#[test]
fn unbound_name_fails() {
    assert_eq!(error_of(run(ident("nowhere"))), EvalError::UnboundNameError);
}

#[test]
fn unbound_name_inside_a_call_fails() {
    let p = program(vec![func("g", &["a"], ident("missing")), ident("g"), num(1)], 0);
    assert_eq!(error_of(run(p)), EvalError::UnboundNameError);
}

#[test]
fn config_keeps_entry_order_and_evaluates_values() {
    let c = config(vec![(ident("k1"), bin(num(1), num(1), Operator::Addition)), (ident("k2"), num(3))]);
    let r = run(c).unwrap();
    assert_eq!(r.id, -1);
    match r.value {
        Fructa::Causor(pairs) => {
            assert_eq!(pairs.len(), 2);
            let keys: Vec<String> = pairs
                .iter()
                .map(|(k, _)| match &k.kind {
                    NodeKind::Identifier { symbol } => symbol.clone(),
                    _ => panic!("key changed"),
                })
                .collect();
            assert_eq!(keys, vec!["k1".to_string(), "k2".to_string()]);
            assert!(matches!(pairs[0].1.value, Fructa::Numerum(2)));
            assert!(matches!(pairs[1].1.value, Fructa::Numerum(3)));
        },
        other => panic!("expected an object, got {:?}", other),
    }
}

#[test]
fn default_result_is_null_tagged_zero() {
    let d = Proventus::default();
    assert!(matches!(d.value, Fructa::Nullus));
    assert_eq!(d.id, 0);
}

#[test]
fn step_results_are_tagged_minus_one() {
    assert_eq!(number_of(run(num(8))), (8, -1));
    let n = run(null()).unwrap();
    assert!(matches!(n.value, Fructa::Nullus));
    assert_eq!(n.id, -1);
    let p = program(vec![func("f", &[], num(1)), ident("f")], 0);
    let decl = run(program(vec![func("f", &[], num(1))], 0)).unwrap();
    assert!(matches!(decl.value, Fructa::Nullus));
    assert_eq!(number_of(run(p)), (1, 0));
}

#[test]
fn name_bound_to_number_gives_the_number() {
    let mut env = Environment::new();
    env.declare(&ident("n"), Proventus { value: Fructa::Numerum(12), id: 4 }).unwrap();
    let r = Interpreter::new(8).evaluate(ident("n"), &mut env);
    assert_eq!(number_of(r), (12, -1));
}

#[test]
fn append_to_program_adds_a_statement() {
    let mut p = program(vec![num(1)], 0);
    assert!(p.appendToBody(num(2)).is_ok());
    match &p.kind {
        NodeKind::Program { body, .. } => assert_eq!(body.len(), 2),
        _ => panic!("not a program"),
    }
    assert_eq!(number_of(run(p)), (2, 0));
}

#[test]
fn append_to_non_program_fails_and_leaves_it() {
    let mut n = ident("x");
    assert_eq!(n.appendToBody(num(2)), Err(EvalError::StructuralError));
    match &n.kind {
        NodeKind::Identifier { symbol } => assert_eq!(symbol, "x"),
        _ => panic!("node changed"),
    }
}

#[test]
fn name_bound_to_object_is_not_callable() {
    let p = program(vec![func("o", &[], num(0)), ident("o")], 0);
    assert_eq!(number_of(run(p)), (0, 0));
    let mut env = Environment::new();
    env.declare(&ident("obj"), Proventus { value: Fructa::Causor(vec![]), id: -1 }).unwrap();
    let r = Interpreter::new(8).evaluate(ident("obj"), &mut env);
    assert_eq!(error_of(r), EvalError::UncallableValueError);
}

#[test]
fn unknown_node_fails() {
    assert_eq!(error_of(run(Node { kind: NodeKind::Expression })), EvalError::UnknownNodeError);
    assert_eq!(error_of(run(Node { kind: NodeKind::Stmt })), EvalError::UnknownNodeError);
}

#[test]
fn declaring_into_a_non_identifier_fails() {
    let d = Node {
        kind: NodeKind::FunctionDeclaration { identifier: Box::new(num(1)), arguments: vec![], statement: Box::new(num(2)) },
    };
    assert_eq!(error_of(run(d)), EvalError::BindingTargetError);
    let mut env = Environment::new();
    assert_eq!(env.declare(&num(1), Proventus::default()), Err(EvalError::BindingTargetError));
}

#[test]
fn call_without_enough_following_statements_fails() {
    let p = program(vec![func("f", &["x"], ident("x")), ident("f")], 0);
    assert_eq!(error_of(run(p)), EvalError::ArgumentSourceError);
}

#[test]
fn call_with_non_identifier_parameter_fails() {
    let d = Node {
        kind: NodeKind::FunctionDeclaration {
            identifier: Box::new(ident("f")),
            arguments: vec![Box::new(num(1))],
            statement: Box::new(num(2)),
        },
    };
    let p = program(vec![d, ident("f"), num(5)], 0);
    assert_eq!(error_of(run(p)), EvalError::BindingTargetError);
}

#[test]
fn endless_recursion_stops_at_the_depth_limit() {
    let p = program(vec![func("f", &[], ident("f")), ident("f")], 0);
    let mut env = Environment::new();
    assert_eq!(error_of(Interpreter::new(20).evaluate(p, &mut env)), EvalError::CallDepthError);
}

#[test]
fn function_scope_does_not_leak_into_caller() {
    let p = program(
        vec![
            func("f", &["x"], ident("x")),
            ident("f"),
            num(6),
            ident("x"),
        ],
        0,
    );
    assert_eq!(error_of(run(p)), EvalError::UnboundNameError);
}

#[test]
fn environment_window_and_cursor() {
    let mut env = Environment::new();
    env.load_statements(vec![num(1), num(2), num(3)]);
    assert_eq!(env.current_index(), 0);
    assert_eq!(env.window_len(), 3);
    env.advance(2);
    assert_eq!(env.current_index(), 2);
    assert!(matches!(env.statement_at(1).map(|n| &n.kind), Some(NodeKind::NumericLiteral { value: NodeValue::Integer(2) })));
    assert!(env.statement_at(3).is_none());
}

#[test]
fn inner_declaration_shadows_outer_binding() {
    let mut env = Environment::new();
    env.declare(&ident("v"), Proventus { value: Fructa::Numerum(1), id: -1 }).unwrap();
    env.declare(&ident("v"), Proventus { value: Fructa::Numerum(2), id: -1 }).unwrap();
    assert!(matches!(env.resolve(&"v".to_string()).map(|p| &p.value), Some(Fructa::Numerum(2))));
    assert!(env.resolve(&"w".to_string()).is_none());
}
