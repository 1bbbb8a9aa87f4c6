use behaviortree_rs::scripting::{Expr, Op, Value, ValuePointer};

fn lit(n: i64) -> Box<Expr> {
    Box::new(Expr::Value(Value::Integer(n)))
}

fn var(name: &str) -> Box<Expr> {
    Box::new(Expr::ValuePointer(ValuePointer::LocalVariable(name.to_string())))
}

#[test]
fn sum_of_literals_is_valid() {
    let e = Expr::BinaryOp { lhs: lit(1), op: Op::Add, rhs: lit(2) };
    assert!(e.validate().is_ok());
}

#[test]
fn undefined_variable_is_refused() {
    let e = *var("x");
    assert_eq!(e.validate(), Err("Use of undefined variable x".to_string()));
}

#[test]
fn assigned_variable_may_be_read() {
    let e = Expr::Chain(vec![
        Expr::BinaryOp { lhs: var("x"), op: Op::VariableAssign, rhs: lit(1) },
        Expr::BinaryOp { lhs: var("x"), op: Op::Add, rhs: lit(2) },
    ]);
    assert!(e.validate().is_ok());
}

#[test]
fn variable_may_not_be_read_in_its_own_assignment() {
    let e = Expr::BinaryOp { lhs: var("x"), op: Op::VariableAssign, rhs: var("x") };
    assert!(e.validate().is_err());
}

#[test]
fn variable_read_before_its_assignment_is_refused() {
    let e = Expr::Chain(vec![
        *var("y"),
        Expr::BinaryOp { lhs: var("y"), op: Op::VariableAssign, rhs: lit(1) },
    ]);
    assert!(e.validate().is_err());
}

#[test]
fn blackboard_pointer_needs_no_assignment() {
    let e = Expr::BinaryOp {
        lhs: Box::new(Expr::ValuePointer(ValuePointer::BlackboardPointer("k".to_string()))),
        op: Op::Eq,
        rhs: lit(3),
    };
    assert!(e.validate().is_ok());
}

#[test]
fn assignment_to_a_literal_is_refused() {
    let e = Expr::BinaryOp { lhs: lit(1), op: Op::VariableAssign, rhs: lit(2) };
    assert_eq!(
        e.validate(),
        Err("LHS of a variable assignment isn't a ValuePointer, shouldn't be possible.".to_string())
    );
}

#[test]
fn negation_of_a_string_or_boolean_literal_is_refused() {
    let s = Expr::UnaryOp { op: Op::Neg, value: Box::new(Expr::Value(Value::String("a".to_string()))) };
    assert_eq!(s.validate(), Err("Negation operator not allowed on strings.".to_string()));
    let b = Expr::UnaryOp { op: Op::Neg, value: Box::new(Expr::Value(Value::Boolean(true))) };
    assert_eq!(b.validate(), Err("Negation operator not allowed on booleans.".to_string()));
    let n = Expr::UnaryOp { op: Op::Neg, value: lit(4) };
    assert!(n.validate().is_ok());
}

#[test]
fn not_applies_to_booleans_and_integers_only() {
    let f = Expr::UnaryOp { op: Op::Not, value: Box::new(Expr::Value(Value::Float(1.5f64.to_bits()))) };
    assert_eq!(f.validate(), Err("NOT operator only allowed on booleans and integers.".to_string()));
    let i = Expr::UnaryOp { op: Op::Not, value: lit(0) };
    assert!(i.validate().is_ok());
    let v = Expr::UnaryOp { op: Op::Not, value: var("z") };
    assert!(v.validate().is_err());
}

#[test]
fn binary_operator_as_unary_is_refused() {
    let e = Expr::UnaryOp { op: Op::Add, value: lit(1) };
    assert_eq!(e.validate(), Err("Expected unary operator, found Add".to_string()));
}

#[test]
fn function_arguments_are_checked_in_order() {
    let ok = Expr::FunctionCall {
        name: "f".to_string(),
        args: vec![Expr::BinaryOp { lhs: var("a"), op: Op::VariableAssign, rhs: lit(1) }, *var("a")],
    };
    assert!(ok.validate().is_ok());
    let bad = Expr::FunctionCall { name: "f".to_string(), args: vec![*var("a")] };
    assert!(bad.validate().is_err());
}

#[test]
fn as_variable_names_only_variables() {
    assert_eq!(ValuePointer::LocalVariable("v".to_string()).as_variable(), Some("v"));
    assert_eq!(ValuePointer::BlackboardPointer("v".to_string()).as_variable(), None);
}
