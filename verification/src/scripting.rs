//! Script expressions: their syntax tree, and the check that a script uses
//! only variables it has assigned and applies `-` and `!` only where they
//! can apply.

use vstd::prelude::*;

use crate::text::{concat, str_eq, to_owned_string};

verus! {

/// A literal value of a script.
#[derive(Debug)]
pub enum Value {
    /// A string value.
    String(String),
    /// A float value, held by its IEEE 754 bits.
    Float(u64),
    /// An integer value.
    Integer(i64),
    /// A boolean value.
    Boolean(bool),
    /// An empty value.
    Empty,
}

/// Where a script reads or writes a value.
#[derive(Debug)]
pub enum ValuePointer {
    /// A variable of the script
    LocalVariable(String),
    /// An entry of the blackboard
    BlackboardPointer(String),
}

impl ValuePointer {
    /// The name of the variable, if this points to a variable.
    pub fn as_variable(&self) -> (r: Option<&str>)
        ensures
            match self {
                ValuePointer::LocalVariable(name) => r matches Some(n) && n@ == name@,
                ValuePointer::BlackboardPointer(_) => r is None,
            },
    {
        match self {
            ValuePointer::LocalVariable(name) => Some(name.as_str()),
            ValuePointer::BlackboardPointer(_) => None,
        }
    }
}

/// An operator of a script.
#[derive(Debug, Clone, Copy, PartialEq, Eq, Structural)]
pub enum Op {
    /// A binary addition operator.
    Add,
    /// A binary subtraction operator.
    Sub,
    /// A unary negation operator.
    Neg,
    /// A binary multiplication operator.
    Mul,
    /// A binary division operator.
    Div,
    /// A binary modulo operator.
    Mod,
    /// A binary exponentiation operator.
    Exp,
    /// A binary equality comparator.
    Eq,
    /// A binary inequality comparator.
    Neq,
    /// A binary greater-than comparator.
    Gt,
    /// A binary lower-than comparator.
    Lt,
    /// A binary greater-than-or-equal comparator.
    Geq,
    /// A binary lower-than-or-equal comparator.
    Leq,
    /// A binary logical and operator.
    And,
    /// A binary logical or operator.
    Or,
    /// A unary logical not operator.
    Not,
    /// Assigns an expression to a variable of the script
    VariableAssign,
    /// Assigns an expression to a blackboard entry; `create` (the `:=`
    /// operator) creates the entry when it does not exist yet.
    BlackboardAssign { create: bool },
}

/// The syntax tree of a script.
#[derive(Debug)]
pub enum Expr {
    Value(Value),
    ValuePointer(ValuePointer),
    /// Statements, run in order
    Chain(Vec<Expr>),
    BinaryOp { lhs: Box<Expr>, op: Op, rhs: Box<Expr> },
    UnaryOp { op: Op, value: Box<Expr> },
    FunctionCall { name: String, args: Vec<Expr> },
}

/// The variables that checking `e` with the variables `vars` already
/// assigned leaves assigned, or `None` when the check fails. Each operand
/// is checked in order, except that the right side of a binary operation is
/// checked before its left side; an assignment to a variable checks its
/// right side and then assigns the variable, whose name its left side must
/// be. A variable must be assigned before it is read. `-` does not apply to
/// a string or boolean literal, `!` to a literal other than a boolean or an
/// integer, and no other operator is unary.
pub open spec fn spec_validate(e: Expr, vars: Seq<Seq<char>>) -> Option<Seq<Seq<char>>>
    decreases e, 1nat,
{
    match e {
        Expr::Value(_) => Some(vars),
        Expr::ValuePointer(p) => match p {
            ValuePointer::LocalVariable(name) => if vars.contains(name@) { Some(vars) } else { None },
            ValuePointer::BlackboardPointer(_) => Some(vars),
        },
        Expr::Chain(exprs) => spec_validate_all(exprs@, vars),
        Expr::BinaryOp { lhs, op, rhs } => match spec_validate(*rhs, vars) {
            None => None,
            Some(v) => if op == Op::VariableAssign {
                match *lhs {
                    Expr::ValuePointer(ValuePointer::LocalVariable(name)) => Some(v.push(name@)),
                    _ => None,
                }
            } else {
                spec_validate(*lhs, v)
            },
        },
        Expr::UnaryOp { op, value } => {
            let allowed = match op {
                Op::Neg => !(*value matches Expr::Value(Value::String(_)))
                    && !(*value matches Expr::Value(Value::Boolean(_))),
                Op::Not => match *value {
                    Expr::Value(Value::Boolean(_)) | Expr::Value(Value::Integer(_)) => true,
                    Expr::Value(_) => false,
                    _ => true,
                },
                _ => false,
            };
            if allowed {
                spec_validate(*value, vars)
            } else {
                None
            }
        },
        Expr::FunctionCall { name: _, args } => spec_validate_all(args@, vars),
    }
}

/// Checks the expressions `es` in order, starting with the variables
/// `vars` assigned.
pub open spec fn spec_validate_all(es: Seq<Expr>, vars: Seq<Seq<char>>) -> Option<Seq<Seq<char>>>
    decreases es, 0nat,
{
    if es.len() == 0 {
        Some(vars)
    } else {
        match spec_validate_all(es.drop_last(), vars) {
            None => None,
            Some(v) => spec_validate(es.last(), v),
        }
    }
}

/// Whether the script `e` passes the check, starting with no variables.
pub open spec fn spec_valid(e: Expr) -> bool {
    spec_validate(e, Seq::empty()) is Some
}

/// `!` and unary `-` check an operand that is not a literal as the operand
/// alone: applying them to a variable, a pointer, a call or a compound
/// expression neither refuses it nor assigns anything more.
pub proof fn lemma_unary_of_non_literal(e: Expr, vars: Seq<Seq<char>>)
    requires
        !(e is Value),
    ensures
        spec_validate(Expr::UnaryOp { op: Op::Not, value: Box::new(e) }, vars) == spec_validate(e, vars),
        spec_validate(Expr::UnaryOp { op: Op::Neg, value: Box::new(e) }, vars) == spec_validate(e, vars),
{
}

/// `!` applies to boolean and integer literals only, unary `-` to literals
/// other than strings and booleans; a literal assigns nothing.
pub proof fn lemma_unary_of_literal(v: Value, vars: Seq<Seq<char>>)
    ensures
        spec_validate(Expr::UnaryOp { op: Op::Not, value: Box::new(Expr::Value(v)) }, vars)
            == if v is Boolean || v is Integer { Some(vars) } else { None },
        spec_validate(Expr::UnaryOp { op: Op::Neg, value: Box::new(Expr::Value(v)) }, vars)
            == if v is String || v is Boolean { None } else { Some(vars) },
{
    assert(spec_validate(Expr::Value(v), vars) == Some(vars));
}

/// A blackboard pointer is always accepted; a local variable only once it
/// was assigned. Neither assigns a variable.
pub proof fn lemma_pointer_validity(p: ValuePointer, vars: Seq<Seq<char>>)
    ensures
        spec_validate(Expr::ValuePointer(p), vars) == match p {
            ValuePointer::BlackboardPointer(_) => Some(vars),
            ValuePointer::LocalVariable(name) => if vars.contains(name@) { Some(vars) } else { None },
        },
{
}

/// Assigning a local variable makes it readable afterwards: `x := v` then
/// `x` is accepted whenever `v` is.
pub proof fn lemma_assign_then_read(name: String, v: Expr, vars: Seq<Seq<char>>)
    requires
        spec_validate(v, vars) is Some,
    ensures
        ({
            let assign = Expr::BinaryOp {
                lhs: Box::new(Expr::ValuePointer(ValuePointer::LocalVariable(name))),
                op: Op::VariableAssign,
                rhs: Box::new(v),
            };
            &&& spec_validate(assign, vars) == Some(spec_validate(v, vars).unwrap().push(name@))
            &&& spec_validate(Expr::ValuePointer(ValuePointer::LocalVariable(name)), spec_validate(assign, vars).unwrap())
                is Some
        }),
{
    let w = spec_validate(v, vars).unwrap();
    assert(w.push(name@)[w.len() as int] == name@);
}

/// An operator checks its right side first: a variable that the right side
/// assigns may be read on the left side.
pub proof fn lemma_right_side_first(name: String, v: Expr, op: Op, vars: Seq<Seq<char>>)
    requires
        op != Op::VariableAssign,
        spec_validate(v, vars) is Some,
    ensures
        spec_validate(
            Expr::BinaryOp {
                lhs: Box::new(Expr::ValuePointer(ValuePointer::LocalVariable(name))),
                op,
                rhs: Box::new(Expr::BinaryOp {
                    lhs: Box::new(Expr::ValuePointer(ValuePointer::LocalVariable(name))),
                    op: Op::VariableAssign,
                    rhs: Box::new(v),
                }),
            },
            vars,
        ) is Some,
{
    lemma_assign_then_read(name, v, vars);
}

/// A chain checks its expressions in order: a variable assigned by one
/// expression may be read by a later one.
pub proof fn lemma_chain_in_order(name: String, v: Expr, vars: Seq<Seq<char>>)
    requires
        spec_validate(v, vars) is Some,
    ensures
        ({
            let assign = Expr::BinaryOp {
                lhs: Box::new(Expr::ValuePointer(ValuePointer::LocalVariable(name))),
                op: Op::VariableAssign,
                rhs: Box::new(v),
            };
            let read = Expr::ValuePointer(ValuePointer::LocalVariable(name));
            spec_validate_all(seq![assign, read], vars) is Some
        }),
{
    lemma_assign_then_read(name, v, vars);
    let assign = Expr::BinaryOp {
        lhs: Box::new(Expr::ValuePointer(ValuePointer::LocalVariable(name))),
        op: Op::VariableAssign,
        rhs: Box::new(v),
    };
    let read = Expr::ValuePointer(ValuePointer::LocalVariable(name));
    let es = seq![assign, read];
    assert(es.drop_last() =~= seq![assign]);
    assert(seq![assign].drop_last() =~= Seq::<Expr>::empty());
    assert(seq![assign].last() == assign);
    assert(spec_validate_all(Seq::<Expr>::empty(), vars) == Some(vars));
    assert(spec_validate_all(seq![assign], vars) == spec_validate(assign, vars));
    assert(es.last() == read);
}

/// The views of a list of names.
pub open spec fn names_view(v: Seq<String>) -> Seq<Seq<char>> {
    v.map_values(|s: String| s@)
}

/// Whether `name` is one of `vars`.
fn contains_name(vars: &Vec<String>, name: &str) -> (r: bool)
    ensures
        r == names_view(vars@).contains(name@),
{
    let mut i: usize = 0;
    while i < vars.len()
        invariant
            i <= vars@.len(),
            forall|j: int| 0 <= j < i ==> vars@[j]@ != name@,
        decreases vars@.len() - i,
    {
        if str_eq(vars[i].as_str(), name) {
            assert(names_view(vars@)[i as int] == name@);
            return true;
        }
        i = i + 1;
    }
    proof {
        if names_view(vars@).contains(name@) {
            let k = choose|k: int| 0 <= k < names_view(vars@).len() && names_view(vars@)[k] == name@;
            assert(vars@[k]@ == name@);
        }
    }
    false
}

/// The name of an operator.
fn op_name(op: Op) -> (r: &'static str) {
    match op {
        Op::Add => "Add",
        Op::Sub => "Sub",
        Op::Neg => "Neg",
        Op::Mul => "Mul",
        Op::Div => "Div",
        Op::Mod => "Mod",
        Op::Exp => "Exp",
        Op::Eq => "Eq",
        Op::Neq => "Neq",
        Op::Gt => "Gt",
        Op::Lt => "Lt",
        Op::Geq => "Geq",
        Op::Leq => "Leq",
        Op::And => "And",
        Op::Or => "Or",
        Op::Not => "Not",
        Op::VariableAssign => "VariableAssign",
        Op::BlackboardAssign { .. } => "BlackboardAssign",
    }
}

impl Expr {
    /// Checks the script: every variable is assigned before it is read,
    /// and `-` and `!` apply only where they can. The error says what is
    /// wrong.
    pub fn validate(&self) -> (r: Result<(), String>)
        ensures
            r is Ok <==> spec_valid(*self),
    {
        let mut variables: Vec<String> = Vec::new();
        proof {
            assert(names_view(variables@) =~= Seq::<Seq<char>>::empty());
        }
        validate_recursive(self, &mut variables)
    }
}

/// Checks the expressions of `exprs` in order.
fn validate_all(exprs: &Vec<Expr>, variables: &mut Vec<String>) -> (r: Result<(), String>)
    ensures
        match spec_validate_all(exprs@, names_view(old(variables)@)) {
            Some(v) => r is Ok && names_view(final(variables)@) == v,
            None => r is Err,
        },
    decreases exprs@, 2nat,
{
    let mut i: usize = 0;
    while i < exprs.len()
        invariant
            i <= exprs@.len(),
            spec_validate_all(exprs@.take(i as int), names_view(old(variables)@)) == Some(names_view(variables@)),
        decreases exprs@.len() - i,
    {
        proof {
            assert(exprs@.take(i + 1).drop_last() =~= exprs@.take(i as int));
            assert(exprs@.take(i + 1).last() == exprs@[i as int]);
            assert(decreases_to!(exprs@ => exprs@[i as int]));
        }
        match validate_recursive(&exprs[i], variables) {
            Ok(()) => {},
            Err(m) => {
                proof {
                    lemma_validate_all_fails(exprs@, names_view(old(variables)@), i as int + 1);
                }
                return Err(m);
            },
        }
        i = i + 1;
    }
    proof {
        assert(exprs@.take(i as int) =~= exprs@);
    }
    Ok(())
}

/// Once a prefix of the expressions fails the check, all of them do.
proof fn lemma_validate_all_fails(es: Seq<Expr>, vars: Seq<Seq<char>>, k: int)
    requires
        0 <= k <= es.len(),
        spec_validate_all(es.take(k), vars) is None,
    ensures
        spec_validate_all(es, vars) is None,
    decreases es.len() - k,
{
    if k < es.len() {
        assert(es.take(k + 1).drop_last() =~= es.take(k));
        lemma_validate_all_fails(es, vars, k + 1);
    } else {
        assert(es.take(k) =~= es);
    }
}

/// Checks `expr` with `variables` assigned, and assigns the variables that
/// it assigns.
fn validate_recursive(expr: &Expr, variables: &mut Vec<String>) -> (r: Result<(), String>)
    ensures
        match spec_validate(*expr, names_view(old(variables)@)) {
            Some(v) => r is Ok && names_view(final(variables)@) == v,
            None => r is Err,
        },
    decreases *expr, 3nat,
{
    match expr {
        Expr::ValuePointer(value_pointer) => match value_pointer {
            ValuePointer::LocalVariable(name) => {
                if !contains_name(variables, name.as_str()) {
                    return Err(concat("Use of undefined variable ", name.as_str()));
                }
                Ok(())
            },
            ValuePointer::BlackboardPointer(_) => Ok(()),
        },
        Expr::Chain(exprs) => validate_all(exprs, variables),
        Expr::BinaryOp { lhs, op, rhs } => {
            match validate_recursive(rhs, variables) {
                Ok(()) => {},
                Err(m) => return Err(m),
            }
            match op {
                Op::VariableAssign => {
                    let pointer = match &**lhs {
                        Expr::ValuePointer(p) => p,
                        _ => return Err(to_owned_string(
                            "LHS of a variable assignment isn't a ValuePointer, shouldn't be possible.",
                        )),
                    };
                    let name = match pointer.as_variable() {
                        Some(n) => n,
                        None => return Err(to_owned_string(
                            "LHS ValuePointer of variable assignment isn't a LocalVariable, shouldn't be possible.",
                        )),
                    };
                    let ghost before = variables@;
                    variables.push(to_owned_string(name));
                    proof {
                        assert(names_view(variables@) =~= names_view(before).push(name@));
                    }
                    Ok(())
                },
                _ => validate_recursive(lhs, variables),
            }
        },
        Expr::UnaryOp { op, value } => {
            match op {
                Op::Neg => {
                    match &**value {
                        Expr::Value(Value::String(_)) => {
                            return Err(to_owned_string("Negation operator not allowed on strings."));
                        },
                        Expr::Value(Value::Boolean(_)) => {
                            return Err(to_owned_string("Negation operator not allowed on booleans."));
                        },
                        _ => {},
                    }
                },
                Op::Not => {
                    match &**value {
                        Expr::Value(Value::Boolean(_)) | Expr::Value(Value::Integer(_)) => {},
                        Expr::Value(_) => {
                            return Err(to_owned_string("NOT operator only allowed on booleans and integers."));
                        },
                        _ => {},
                    }
                },
                other => {
                    return Err(concat("Expected unary operator, found ", op_name(*other)));
                },
            }
            validate_recursive(value, variables)
        },
        Expr::FunctionCall { name: _, args } => validate_all(args, variables),
        Expr::Value(_) => Ok(()),
    }
}

} // verus!
