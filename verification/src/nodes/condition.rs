//! The `Condition` node: a leaf that succeeds when a boolean expression,
//! over typed blackboard entries, holds. Expressions are compiled and
//! evaluated by `evalexpr`.

use vstd::prelude::*;

use evalexpr::{
    build_operator_tree, ContextWithMutableVariables, DefaultNumericTypes, HashMapContext, Node,
    Value as ExprValue,
};

use crate::basic_types::{is_input_port, NodeStatus, PortInfo, PortsList};
use crate::blackboard::Blackboard;
use crate::nodes::{NodeDataGeneric, NodeError, NodeResult};
use crate::text::{concat, spec_strip_bb_pointer, str_eq, strip_bb_pointer, to_owned_string};
use crate::value::{model_kind, Value, ValueKind, ValueModel};

verus! {

/// An expression tree that `evalexpr` compiled. (Verus cannot be told of
/// `evalexpr::Node` itself, whose parameter is bounded by an `evalexpr`
/// trait, so it is held here.)
#[verifier::external_body]
#[derive(Debug)]
pub struct ExprTree {
    node: Node<DefaultNumericTypes>,
}

/// A compiled expression, with the text it was compiled from. Only
/// [`compile`] makes one, so the tree is always the one `evalexpr` builds
/// from `source`; its view is that text.
#[derive(Debug)]
pub struct CompiledExpr {
    tree: ExprTree,
    source: String,
}

impl View for CompiledExpr {
    type V = Seq<char>;

    closed spec fn view(&self) -> Seq<char> {
        self.source@
    }
}

/// The variables of an evaluation, as `evalexpr` holds them. (Held here for
/// the same reason as [`ExprTree`].)
#[verifier::external_body]
pub struct ExprContext {
    context: HashMapContext<DefaultNumericTypes>,
}

/// A value given to a variable of an expression.
pub enum ExprVariable {
    Int(i64),
    Str(String),
    Bool(bool),
}

impl View for ExprVariable {
    type V = ValueModel;

    open spec fn view(&self) -> ValueModel {
        match self {
            ExprVariable::Int(n) => ValueModel::Integer(*n),
            ExprVariable::Str(s) => ValueModel::String(s@),
            ExprVariable::Bool(b) => ValueModel::Boolean(*b),
        }
    }
}

/// Why `evalexpr` cannot compile the expression `text`, if it cannot: the
/// text of its error.
pub uninterp spec fn expression_error(text: Seq<char>) -> Option<Seq<char>>;

/// The identifiers of the variables that the expression `text` reads or
/// writes, each occurrence in the order `evalexpr` walks the tree.
pub uninterp spec fn expression_variable_names(text: Seq<char>) -> Seq<Seq<char>>;

/// The identifiers of the functions that the expression `text` calls, each
/// occurrence in the order `evalexpr` walks the tree.
pub uninterp spec fn expression_function_names(text: Seq<char>) -> Seq<Seq<char>>;

/// What `evalexpr` evaluates the expression `text` to as a boolean, when
/// its variables hold `variables`: the boolean, or the text of the error.
pub uninterp spec fn boolean_evaluation(text: Seq<char>, variables: Map<Seq<char>, ValueModel>) -> Result<bool, Seq<char>>;

/// The variables that an evaluation context holds.
pub uninterp spec fn context_variables(context: ExprContext) -> Map<Seq<char>, ValueModel>;

/// `evalexpr::build_operator_tree`: compiles `text`, or gives the error as
/// text. The contract claims that whether it compiles, and the error's text,
/// depend on `text` alone; the tree is opaque to Verus.
#[verifier::external_body]
fn build_tree(text: &str) -> (r: Result<ExprTree, String>)
    ensures
        match r {
            Ok(_) => expression_error(text@) is None,
            Err(m) => expression_error(text@) == Some(m@),
        },
{
    match build_operator_tree::<DefaultNumericTypes>(text) {
        Ok(node) => Ok(ExprTree { node }),
        Err(e) => Err(format!("{e}")),
    }
}

/// Compiles `text`, keeping the text with the tree.
pub(crate) fn compile_expression(text: &str) -> (r: Result<CompiledExpr, String>)
    ensures
        match r {
            Ok(e) => expression_error(text@) is None && e@ == text@,
            Err(m) => expression_error(text@) == Some(m@),
        },
{
    match build_tree(text) {
        Ok(tree) => Ok(CompiledExpr { tree, source: to_owned_string(text) }),
        Err(m) => Err(m),
    }
}

/// `evalexpr::Node::iter_variable_identifiers`: the identifiers of the
/// variables that the expression reads or writes. The contract claims that
/// they are those that the compiled text has, in `evalexpr`'s order.
#[verifier::external_body]
pub(crate) fn expression_variables(expr: &CompiledExpr) -> (r: Vec<String>)
    ensures
        r@.map_values(|s: String| s@) == expression_variable_names(expr@),
{
    expr.tree.node.iter_variable_identifiers().map(|id| id.to_owned()).collect()
}

/// `evalexpr::Node::iter_function_identifiers`: the identifiers of the
/// functions that the expression calls. The contract claims that they are
/// those that the compiled text has, in `evalexpr`'s order.
#[verifier::external_body]
fn expression_functions(expr: &CompiledExpr) -> (r: Vec<String>)
    ensures
        r@.map_values(|s: String| s@) == expression_function_names(expr@),
{
    expr.tree.node.iter_function_identifiers().map(|id| id.to_owned()).collect()
}

/// `evalexpr::HashMapContext::new`: a context without variables.
#[verifier::external_body]
fn new_context() -> (r: ExprContext)
    ensures
        context_variables(r).dom() == Set::<Seq<char>>::empty(),
{
    ExprContext { context: HashMapContext::new() }
}

/// `evalexpr::ContextWithMutableVariables::set_value` on a
/// `HashMapContext`: gives `identifier` the value, unless the identifier
/// already holds a value of another type; then it fails and nothing
/// changes. The error's text is left unsaid.
#[verifier::external_body]
fn set_variable(context: &mut ExprContext, identifier: String, value: ExprVariable) -> (r: Result<(), String>)
    ensures
        r is Err <==> (context_variables(*old(context)).contains_key(identifier@)
            && model_kind(context_variables(*old(context))[identifier@]) != model_kind(value@)),
        r is Ok ==> context_variables(*final(context)) == context_variables(*old(context)).insert(identifier@, value@),
        r is Err ==> context_variables(*final(context)) == context_variables(*old(context)),
{
    let v = match value {
        ExprVariable::Int(n) => ExprValue::Int(n),
        ExprVariable::Str(s) => ExprValue::String(s),
        ExprVariable::Bool(b) => ExprValue::Boolean(b),
    };
    match context.context.set_value(identifier, v) {
        Ok(()) => Ok(()),
        Err(e) => Err(format!("{e}")),
    }
}

/// The built-in functions of `evalexpr` that can panic on some arguments:
/// the shifts (by 64 bits or more, or by a negative amount), the absolute
/// value (of the least integer) and the substring (cut inside a character).
pub open spec fn is_panicking_function(name: Seq<char>) -> bool {
    name == "shl"@ || name == "shr"@ || name == "math::abs"@ || name == "str::substring"@
}

/// Whether the expression `text` calls none of the functions of
/// [`is_panicking_function`].
pub open spec fn calls_no_panicking_function(text: Seq<char>) -> bool {
    forall|i: int| 0 <= i < expression_function_names(text).len()
        ==> !is_panicking_function(#[trigger] expression_function_names(text)[i])
}

/// `evalexpr::Node::eval_boolean_with_context`: what the expression
/// evaluates to as a boolean under the context's variables, or the error as
/// text. The contract claims that this depends on the compiled text and the
/// variables alone. It is only called on expressions that call none of the
/// built-in functions that can panic.
#[verifier::external_body]
fn eval_boolean(expr: &CompiledExpr, context: &ExprContext) -> (r: Result<bool, String>)
    requires
        calls_no_panicking_function(expr@),
    ensures
        match r {
            Ok(b) => boolean_evaluation(expr@, context_variables(*context)) matches Ok(x) && x == b,
            Err(m) => boolean_evaluation(expr@, context_variables(*context)) matches Err(e) && e == m@,
        },
{
    match expr.tree.node.eval_boolean_with_context(&context.context) {
        Ok(b) => Ok(b),
        Err(e) => Err(format!("{e}")),
    }
}

/// Checks that the expression calls none of the built-in functions that can
/// panic; names the first it calls.
pub fn check_functions(expr: &CompiledExpr) -> (r: Result<(), String>)
    ensures
        r is Ok <==> calls_no_panicking_function(expr@),
{
    proof {
        reveal_strlit("shl");
        reveal_strlit("shr");
        reveal_strlit("math::abs");
        reveal_strlit("str::substring");
    }
    let names = expression_functions(expr);
    let ghost ns = names@.map_values(|s: String| s@);
    let mut i: usize = 0;
    while i < names.len()
        invariant
            i <= names@.len(),
            ns == expression_function_names(expr@),
            ns == names@.map_values(|s: String| s@),
            forall|j: int| 0 <= j < i ==> !is_panicking_function(#[trigger] ns[j]),
        decreases names@.len() - i,
    {
        let n = names[i].as_str();
        assert(n@ == ns[i as int]);
        if str_eq(n, "shl") || str_eq(n, "shr") || str_eq(n, "math::abs") || str_eq(n, "str::substring") {
            return Err(concat("Function not supported in a condition: ", n));
        }
        i = i + 1;
    }
    Ok(())
}

/// The parts of `s` before and after its first `:`, if it has one.
pub open spec fn spec_split_colon(s: Seq<char>) -> Option<(Seq<char>, Seq<char>)> {
    if exists|i: int| 0 <= i < s.len() && s[i] == ':' {
        let i = choose|i: int| 0 <= i < s.len() && s[i] == ':' && forall|j: int| 0 <= j < i ==> s[j] != ':';
        Some((s.subrange(0, i), s.subrange(i + 1, s.len() as int)))
    } else {
        None
    }
}

/// Splits `s` at its first `:`.
pub fn split_colon(s: &str) -> (r: Option<(String, String)>)
    ensures
        match r {
            Some((a, b)) => exists|i: int| 0 <= i < s@.len() && s@[i] == ':'
                && (forall|j: int| 0 <= j < i ==> s@[j] != ':')
                && a@ == s@.subrange(0, i) && b@ == s@.subrange(i + 1, s@.len() as int),
            None => forall|i: int| 0 <= i < s@.len() ==> s@[i] != ':',
        },
{
    let n = s.unicode_len();
    let mut i: usize = 0;
    while i < n
        invariant
            n == s@.len(),
            i <= n,
            forall|j: int| 0 <= j < i ==> s@[j] != ':',
        decreases n - i,
    {
        if s.get_char(i) == ':' {
            let a = to_owned_string(s.substring_char(0, i));
            let b = to_owned_string(s.substring_char(i + 1, n));
            return Some((a, b));
        }
        i = i + 1;
    }
    None
}

/// Whether `t` names one of the types a variable may have: `int`, `float`,
/// `str` or `bool`.
pub open spec fn spec_is_variable_type(t: Seq<char>) -> bool {
    t == "int"@ || t == "float"@ || t == "str"@ || t == "bool"@
}

/// Whether `t` is `int`, `float`, `str` or `bool`.
pub fn is_variable_type(t: &str) -> (r: bool)
    ensures
        r == spec_is_variable_type(t@),
{
    str_eq(t, "int") || str_eq(t, "float") || str_eq(t, "str") || str_eq(t, "bool")
}

/// The names among the first `i + 1` of `names` are those among the first
/// `i`, and the one at `i`.
proof fn lemma_take_one_more(names: Seq<Seq<char>>, i: int)
    requires
        0 <= i < names.len(),
    ensures
        forall|id: Seq<char>| #[trigger] names.take(i + 1).contains(id)
            <==> (names.take(i).contains(id) || id == names[i]),
{
    let t1 = names.take(i + 1);
    let t0 = names.take(i);
    assert forall|id: Seq<char>| #[trigger] t1.contains(id) <==> (t0.contains(id) || id == names[i]) by {
        if t1.contains(id) {
            let k = choose|k: int| 0 <= k < t1.len() && t1[k] == id;
            if k < i {
                assert(t0[k] == id);
            }
        }
        if t0.contains(id) {
            let k = choose|k: int| 0 <= k < t0.len() && t0[k] == id;
            assert(t1[k] == id);
        }
        if id == names[i] {
            assert(t1[i] == id);
        }
    }
}

/// The kind of value that a variable of type `t` holds: `int`, `str` or
/// `bool`.
pub open spec fn variable_kind(t: Seq<char>) -> ValueKind {
    if t == "int"@ {
        ValueKind::Integer
    } else if t == "str"@ {
        ValueKind::String
    } else {
        ValueKind::Boolean
    }
}

/// The identifiers among `names` that are blackboard pointers `{...}`.
pub open spec fn pointer_names(names: Seq<Seq<char>>) -> Set<Seq<char>> {
    Set::new(|id: Seq<char>| names.contains(id) && spec_strip_bb_pointer(id) is Some)
}

/// The kind of the variable `{name:type}`.
pub open spec fn pointer_kind(id: Seq<char>) -> ValueKind {
    variable_kind(spec_split_colon(spec_strip_bb_pointer(id).unwrap()).unwrap().1)
}

/// The name and the type of the variable `{name:type}`.
pub open spec fn pointer_parts(id: Seq<char>) -> (Seq<char>, Seq<char>) {
    spec_split_colon(spec_strip_bb_pointer(id).unwrap()).unwrap()
}

/// Whether `t` is a type that a variable read from the blackboard may have:
/// `int`, `str` or `bool`.
pub open spec fn is_readable_type(t: Seq<char>) -> bool {
    t == "int"@ || t == "str"@ || t == "bool"@
}

/// Whether every blackboard pointer of the expression `text` is written
/// `{name:type}` with a readable type.
pub open spec fn pointers_well_typed(text: Seq<char>) -> bool {
    forall|i: int| 0 <= i < expression_variable_names(text).len()
        && (#[trigger] spec_strip_bb_pointer(expression_variable_names(text)[i])) is Some
        ==> spec_split_colon(spec_strip_bb_pointer(expression_variable_names(text)[i]).unwrap()) is Some
            && is_readable_type(pointer_parts(expression_variable_names(text)[i]).1)
}

/// The value that variable `{name:type}` reads from scope `s` of `bb`, when
/// the entry `name` holds a value of that type.
pub open spec fn variable_value(bb: Blackboard, s: nat, id: Seq<char>) -> Option<ValueModel> {
    match bb.read(s, pointer_parts(id).0) {
        Some(v) => if model_kind(v) == pointer_kind(id) { Some(v) } else { None },
        None => None,
    }
}

/// Whether every variable of the expression `text` reads, from scope `s` of
/// `bb`, a value of its own type.
pub open spec fn variables_ready(text: Seq<char>, bb: Blackboard, s: nat) -> bool {
    &&& pointers_well_typed(text)
    &&& forall|i: int| 0 <= i < expression_variable_names(text).len()
        && (#[trigger] spec_strip_bb_pointer(expression_variable_names(text)[i])) is Some
        ==> variable_value(bb, s, expression_variable_names(text)[i]) is Some
}

/// The values that the variables of the expression `text` read from scope
/// `s` of `bb`.
pub open spec fn variables_read(text: Seq<char>, bb: Blackboard, s: nat) -> Map<Seq<char>, ValueModel> {
    Map::new(
        |id: Seq<char>| pointer_names(expression_variable_names(text)).contains(id),
        |id: Seq<char>| variable_value(bb, s, id).unwrap(),
    )
}

/// Whether some variable of the expression `text` names an entry that scope
/// `s` of `bb` does not have at all.
pub open spec fn variable_missing(text: Seq<char>, bb: Blackboard, s: nat) -> bool {
    exists|i: int| 0 <= i < expression_variable_names(text).len()
        && (#[trigger] spec_strip_bb_pointer(expression_variable_names(text)[i])) is Some
        && bb.read(s, pointer_parts(expression_variable_names(text)[i]).0) is None
}

/// The text that input port `port` gives: its plain value, its default, or
/// the blackboard entry it points to, read as a string.
pub open spec fn spec_string_input(data: &NodeDataGeneric, bb: &Blackboard, port: Seq<char>) -> Option<Seq<char>> {
    match data.spec_plain_input(port, ValueKind::String) {
        Some(Ok(ValueModel::String(t))) => Some(t),
        Some(_) => None,
        None => if data.scope < bb.scope_count() {
            match bb.spec_get(data.scope as nat, data.spec_input_key(port).unwrap(), ValueKind::String) {
                Some(ValueModel::String(t)) => Some(t),
                _ => None,
            }
        } else {
            None
        },
    }
}

/// Whether `variables` are values that a condition may give the variables
/// of its expression `text`: one for each blackboard pointer `{name:type}`
/// of the expression, of the kind that `type` names.
pub open spec fn condition_variables(text: Seq<char>, variables: Map<Seq<char>, ValueModel>) -> bool {
    &&& variables.dom() == pointer_names(expression_variable_names(text))
    &&& forall|id: Seq<char>| #[trigger] variables.contains_key(id) ==> model_kind(variables[id]) == pointer_kind(id)
}

/// Whether the expression `text` evaluates to `b` for some values of its
/// variables, each of the kind its type names.
pub open spec fn evaluates_with_some_values(text: Seq<char>, b: bool) -> bool {
    exists|variables: Map<Seq<char>, ValueModel>|
        condition_variables(text, variables) && (boolean_evaluation(text, variables) matches Ok(x) && x == b)
}

/// The status of a condition whose expression evaluated to `evaluated`:
/// `Success` when it holds, `Failure` when it does not, and the error of an
/// evaluation that failed.
pub fn condition_status(evaluated: Result<bool, String>) -> (r: NodeResult)
    ensures
        match evaluated {
            Ok(true) => r == Ok::<NodeStatus, NodeError>(NodeStatus::Success),
            Ok(false) => r == Ok::<NodeStatus, NodeError>(NodeStatus::Failure),
            Err(m) => r matches Err(NodeError::ConditionExpressionError(e)) && e@ == m@,
        },
{
    match evaluated {
        Ok(true) => Ok(NodeStatus::Success),
        Ok(false) => Ok(NodeStatus::Failure),
        Err(m) => Err(NodeError::ConditionExpressionError(m)),
    }
}

/// Evaluates a boolean expression whose variables are written
/// `{key:type}`: each reads blackboard entry `key` as `type` (`int`, `str`
/// or `bool`; a `float` entry cannot be held by the blackboard).
#[derive(Debug)]
pub struct ConditionNode {
    expr: Option<CompiledExpr>,
}

impl ConditionNode {
    /// Whether the expression has been compiled.
    pub closed spec fn is_compiled(&self) -> bool {
        self.expr is Some
    }

    /// The text of the compiled expression.
    pub closed spec fn source(&self) -> Seq<char> {
        self.expr.unwrap()@
    }

    /// A node whose expression is compiled on its first tick.
    pub fn default() -> (r: Self)
        ensures
            !r.is_compiled(),
    {
        ConditionNode { expr: None }
    }

    /// The port `expr`, checked as an expression when the tree is loaded.
    pub fn ports() -> (r: PortsList)
        ensures
            r.map().dom() =~= set!["expr"@],
            is_input_port(r.map()["expr"@], "expr"@, ValueKind::String, None),
            r.map()["expr"@].spec_parse_expr(),
    {
        proof {
        reveal_strlit("expr");
        }
        let mut p = PortsList::new();
        p.insert(to_owned_string("expr"), PortInfo::input("expr", ValueKind::String).parse_expr().build());
        p
    }

    /// Compiles the expression.
    fn compile_condition(&mut self, condition: &str) -> (r: Result<(), NodeError>)
        ensures
            r is Ok ==> final(self).expr is Some && final(self).source() == condition@,
            r is Err ==> *final(self) == *old(self),
            r is Ok <==> expression_error(condition@) is None,
            r is Err ==> r matches Err(NodeError::ConditionExpressionError(_)),
    {
        match compile_expression(condition) {
            Ok(e) => {
                self.expr = Some(e);
                Ok(())
            },
            Err(msg) => Err(NodeError::ConditionExpressionError(msg)),
        }
    }

    /// Compiles the expression of port `expr` unless it already was, gives
    /// each `{key:type}` variable the blackboard's value, and evaluates it.
    /// An expression that calls a built-in function of `evalexpr` that can
    /// panic is refused.
    fn run_condition(&mut self, ctx: &NodeDataGeneric, bb: &mut Blackboard) -> (r: Result<bool, NodeError>)
        ensures
            old(self).is_compiled() ==> *final(self) == *old(self),
            r is Ok ==> final(self).is_compiled(),
            r matches Ok(b) ==> calls_no_panicking_function(final(self).source())
                && evaluates_with_some_values(final(self).source(), b),
            final(self).is_compiled() && !calls_no_panicking_function(final(self).source())
                ==> r matches Err(NodeError::ConditionExpressionError(_)),
            // The expression is the text of port `expr`, compiled on the
            // first tick.
            !old(self).is_compiled() && final(self).is_compiled()
                ==> spec_string_input(ctx, old(bb), "expr"@) == Some(final(self).source()),
            !old(self).is_compiled() && (spec_string_input(ctx, old(bb), "expr"@) matches Some(t)
                && expression_error(t) is None) ==> final(self).is_compiled(),
            // Variables that read values of their types give the result.
            final(self).is_compiled() && calls_no_panicking_function(final(self).source())
                && ctx.scope < old(bb).scope_count()
                && variables_ready(final(self).source(), *old(bb), ctx.scope as nat) ==> match boolean_evaluation(
                final(self).source(),
                variables_read(final(self).source(), *old(bb), ctx.scope as nat),
            ) {
                Ok(b) => r == Ok::<bool, NodeError>(b),
                Err(e) => r matches Err(NodeError::ConditionExpressionError(m)) && m@ == e,
            },
            // A variable whose entry does not exist is a blackboard error.
            final(self).is_compiled() && calls_no_panicking_function(final(self).source())
                && pointers_well_typed(final(self).source())
                && variable_missing(final(self).source(), *old(bb), ctx.scope as nat)
                ==> r matches Err(NodeError::BlackboardError(_)),
    {
        if self.expr.is_none() {
            let expr_str = match ctx.get_input(bb, "expr", ValueKind::String) {
                Ok(Value::String(s)) => s,
                Ok(_) => return Err(NodeError::PortTypeMismatch(to_owned_string("expr"))),
                Err(e) => return Err(e),
            };
            match self.compile_condition(expr_str.as_str()) {
                Ok(_) => {},
                Err(e) => return Err(e),
            }
        }
        let expr = match &self.expr {
            Some(e) => e,
            None => return Err(NodeError::ConditionExpressionError(to_owned_string("No expression"))),
        };
        match check_functions(expr) {
            Ok(()) => {},
            Err(msg) => return Err(NodeError::ConditionExpressionError(msg)),
        }
        let ghost compiled = *self;
        let ghost bb0 = *bb;
        let ghost src = expr@;
        let ghost ready = ctx.scope < bb0.scope_count() && variables_ready(src, bb0, ctx.scope as nat);
        let mut context = new_context();
        let keys = expression_variables(expr);
        let ghost names = keys@.map_values(|s: String| s@);
        let mut i: usize = 0;
        while i < keys.len()
            invariant
                i <= keys@.len(),
                *self == compiled,
                old(self).is_compiled() ==> compiled == *old(self),
                compiled.is_compiled(),
                compiled.source() == expr@,
                calls_no_panicking_function(expr@),
                names == expression_variable_names(expr@),
                names == keys@.map_values(|s: String| s@),
                context_variables(context).dom() == pointer_names(names.take(i as int)),
                forall|id: Seq<char>| #[trigger] context_variables(context).contains_key(id)
                    ==> model_kind(context_variables(context)[id]) == pointer_kind(id),
                src == expr@,
                old(bb).scope_count() == bb0.scope_count(),
                forall|s2: nat, k2: Seq<char>| #[trigger] bb0.read(s2, k2) == old(bb).read(s2, k2),
                old(self).is_compiled() ==> *old(self) == compiled,
                !old(self).is_compiled() ==> spec_string_input(ctx, old(bb), "expr"@) == Some(src),
                ready == (ctx.scope < bb0.scope_count() && variables_ready(src, bb0, ctx.scope as nat)),
                bb.scope_count() == bb0.scope_count(),
                forall|s2: nat, k2: Seq<char>| #[trigger] bb0.read(s2, k2) is None ==> bb.read(s2, k2) is None,
                ready ==> forall|s2: nat, k2: Seq<char>| #[trigger] bb.read(s2, k2) == bb0.read(s2, k2),
                ready ==> context_variables(context) == Map::new(
                    |id: Seq<char>| pointer_names(names.take(i as int)).contains(id),
                    |id: Seq<char>| variable_value(bb0, ctx.scope as nat, id).unwrap(),
                ),
                pointers_well_typed(src) ==> forall|j: int| 0 <= j < i && (#[trigger] spec_strip_bb_pointer(names[j])) is Some
                    ==> bb0.read(ctx.scope as nat, pointer_parts(names[j]).0) is Some,
            decreases keys@.len() - i,
        {
            let key = keys[i].as_str();
            assert(key@ == names[i as int]);
            match strip_bb_pointer(key) {
                Some(inner) => {
                    let (name, var_type) = match split_colon(inner) {
                        Some(parts) => parts,
                        None => return Err(NodeError::ConditionExpressionError(concat(
                            "Variable is missing a type: ",
                            inner,
                        ))),
                    };
                    proof {
                        let c = choose|c: int| 0 <= c < inner@.len() && inner@[c] == ':'
                            && forall|j: int| 0 <= j < c ==> inner@[j] != ':';
                        assert(spec_split_colon(inner@) == Some((name@, var_type@))) by {
                            let w = choose|w: int| 0 <= w < inner@.len() && inner@[w] == ':'
                                && (forall|j: int| 0 <= j < w ==> inner@[j] != ':')
                                && name@ == inner@.subrange(0, w) && var_type@ == inner@.subrange(w + 1, inner@.len() as int);
                            assert(c == w) by {
                                if c < w { assert(inner@[c] != ':'); }
                                if w < c { assert(inner@[w] != ':'); }
                            }
                        }
                    }
                    proof {
                        assert(pointer_parts(key@) == (name@, var_type@));
                        assert(pointer_kind(key@) == variable_kind(var_type@));
                        if pointers_well_typed(src) {
                            assert(spec_strip_bb_pointer(names[i as int]) is Some);
                        }
                        if ready {
                            assert(spec_strip_bb_pointer(names[i as int]) is Some);
                            assert(variable_value(bb0, ctx.scope as nat, key@) is Some);
                            assert(bb.read(ctx.scope as nat, name@) == bb0.read(ctx.scope as nat, name@));
                        }
                    }
                    let ghost bb_before = *bb;
                    let ghost ctx_before = context_variables(context);
                    let value = match read_variable(ctx, bb, name.as_str(), var_type.as_str()) {
                        Ok(v) => v,
                        Err(e) => return Err(e),
                    };
                    proof {
                        assert(bb_before.read(ctx.scope as nat, name@) is Some);
                        if bb0.read(ctx.scope as nat, name@) is None {
                            assert(bb_before.read(ctx.scope as nat, name@) is None);
                        }
                    }
                    match set_variable(&mut context, to_owned_string(key), value) {
                        Ok(_) => {},
                        Err(msg) => return Err(NodeError::ConditionExpressionError(msg)),
                    }
                    proof {
                        assert(spec_strip_bb_pointer(key@) is Some);
                        assert(names.take(i + 1) =~= names.take(i as int).push(key@));
                        lemma_take_one_more(names, i as int);
                        assert(pointer_names(names.take(i + 1)) =~= pointer_names(names.take(i as int)).insert(key@));
                        if ready {
                            assert(value@ == variable_value(bb0, ctx.scope as nat, key@).unwrap());
                            assert(context_variables(context) =~= Map::new(
                                |id: Seq<char>| pointer_names(names.take(i + 1)).contains(id),
                                |id: Seq<char>| variable_value(bb0, ctx.scope as nat, id).unwrap(),
                            ));
                        }
                        if pointers_well_typed(src) {
                            assert forall|j: int| 0 <= j < i + 1 && (#[trigger] spec_strip_bb_pointer(names[j])) is Some
                                implies bb0.read(ctx.scope as nat, pointer_parts(names[j]).0) is Some by {
                                if j == i {
                                    assert(names[j] == key@);
                                }
                            }
                        }
                    }
                },
                None => {
                    proof {
                        assert(spec_strip_bb_pointer(key@) is None);
                        lemma_take_one_more(names, i as int);
                        assert(pointer_names(names.take(i + 1)) =~= pointer_names(names.take(i as int)));
                        if ready {
                            assert(context_variables(context) =~= Map::new(
                                |id: Seq<char>| pointer_names(names.take(i + 1)).contains(id),
                                |id: Seq<char>| variable_value(bb0, ctx.scope as nat, id).unwrap(),
                            ));
                        }
                        if pointers_well_typed(src) {
                            assert forall|j: int| 0 <= j < i + 1 && (#[trigger] spec_strip_bb_pointer(names[j])) is Some
                                implies bb0.read(ctx.scope as nat, pointer_parts(names[j]).0) is Some by {
                                if j == i {
                                    assert(names[j] == key@);
                                }
                            }
                        }
                    }
                },
            }
            i = i + 1;
        }
        proof {
            assert(names.take(i as int) =~= names);
        }
        proof {
            if ready {
                assert(context_variables(context) =~= variables_read(src, bb0, ctx.scope as nat));
            }
            assert(variables_read(src, bb0, ctx.scope as nat) =~= variables_read(src, *old(bb), ctx.scope as nat));
            if pointers_well_typed(src) && variable_missing(src, *old(bb), ctx.scope as nat) {
                let j = choose|j: int| 0 <= j < names.len() && (#[trigger] spec_strip_bb_pointer(names[j])) is Some
                    && old(bb).read(ctx.scope as nat, pointer_parts(names[j]).0) is None;
                assert(bb0.read(ctx.scope as nat, pointer_parts(names[j]).0) is Some);
            }
            if ctx.scope < old(bb).scope_count() && variables_ready(src, *old(bb), ctx.scope as nat) {
                assert forall|j: int| 0 <= j < names.len() && (#[trigger] spec_strip_bb_pointer(names[j])) is Some
                    implies variable_value(bb0, ctx.scope as nat, names[j]) is Some by {
                    assert(variable_value(*old(bb), ctx.scope as nat, names[j]) is Some);
                }
                assert(ready);
            }
        }
        match eval_boolean(expr, &context) {
            Ok(b) => {
                assert(condition_variables(expr@, context_variables(context)));
                Ok(b)
            },
            Err(msg) => Err(NodeError::ConditionExpressionError(msg)),
        }
    }

    /// Succeeds when the expression holds, fails when it does not.
    pub fn tick(&mut self, ctx: &mut NodeDataGeneric, bb: &mut Blackboard) -> (r: NodeResult)
        ensures
            r matches Ok(s) ==> s == NodeStatus::Success || s == NodeStatus::Failure,
            r matches Ok(s) ==> final(self).is_compiled()
                && calls_no_panicking_function(final(self).source())
                && evaluates_with_some_values(final(self).source(), s == NodeStatus::Success),
            old(self).is_compiled() ==> *final(self) == *old(self),
            final(self).is_compiled() && !calls_no_panicking_function(final(self).source())
                ==> r matches Err(NodeError::ConditionExpressionError(_)),
            !old(self).is_compiled() && final(self).is_compiled()
                ==> spec_string_input(old(ctx), old(bb), "expr"@) == Some(final(self).source()),
            !old(self).is_compiled() && (spec_string_input(old(ctx), old(bb), "expr"@) matches Some(t)
                && expression_error(t) is None) ==> final(self).is_compiled(),
            final(self).is_compiled() && calls_no_panicking_function(final(self).source())
                && old(ctx).scope < old(bb).scope_count()
                && variables_ready(final(self).source(), *old(bb), old(ctx).scope as nat) ==> match boolean_evaluation(
                final(self).source(),
                variables_read(final(self).source(), *old(bb), old(ctx).scope as nat),
            ) {
                Ok(b) => r == Ok::<NodeStatus, NodeError>(if b { NodeStatus::Success } else { NodeStatus::Failure }),
                Err(e) => r matches Err(NodeError::ConditionExpressionError(m)) && m@ == e,
            },
            final(self).is_compiled() && calls_no_panicking_function(final(self).source())
                && pointers_well_typed(final(self).source())
                && variable_missing(final(self).source(), *old(bb), old(ctx).scope as nat)
                ==> r matches Err(NodeError::BlackboardError(_)),
    {
        match self.run_condition(ctx, bb) {
            Ok(b) => condition_status(Ok(b)),
            Err(e) => Err(e),
        }
    }
}

/// The value of variable `name` of type `var_type`: the blackboard entry
/// `name` of the node's scope read as that type.
fn read_variable(ctx: &NodeDataGeneric, bb: &mut Blackboard, name: &str, var_type: &str) -> (r: Result<ExprVariable, NodeError>)
    ensures
        !spec_is_variable_type(var_type@) ==> r matches Err(NodeError::ConditionExpressionError(_)),
        r matches Ok(v) ==> model_kind(v@) == variable_kind(var_type@),
        is_readable_type(var_type@) && r is Err ==> r matches Err(NodeError::BlackboardError(_)),
        r is Ok ==> ctx.scope < old(bb).scope_count() && old(bb).read(ctx.scope as nat, name@) is Some,
        is_readable_type(var_type@) && ctx.scope < old(bb).scope_count()
            && (old(bb).read(ctx.scope as nat, name@) matches Some(v) && model_kind(v) == variable_kind(var_type@))
            ==> (r matches Ok(x) && x@ == old(bb).read(ctx.scope as nat, name@).unwrap())
                && forall|s2: nat, k2: Seq<char>| #[trigger] final(bb).read(s2, k2) == old(bb).read(s2, k2),
        final(bb).scope_count() == old(bb).scope_count(),
        forall|s2: nat, k2: Seq<char>| #[trigger] old(bb).read(s2, k2) is None ==> final(bb).read(s2, k2) is None,
{
    proof {
        reveal_strlit("int");
        reveal_strlit("float");
        reveal_strlit("str");
        reveal_strlit("bool");
    }
    let (kind, what) = if str_eq(var_type, "int") {
        (ValueKind::Integer, "an integer")
    } else if str_eq(var_type, "float") {
        assert(!is_readable_type(var_type@)) by {
            assert("float"@.len() == 5);
            assert("int"@.len() == 3);
            assert("str"@.len() == 3);
            assert("bool"@.len() == 4);
        }
        return Err(NodeError::BlackboardError(concat(
            concat("Couldn't load blackboard key ", name).as_str(),
            " as a float",
        )));
    } else if str_eq(var_type, "str") {
        (ValueKind::String, "a string")
    } else if str_eq(var_type, "bool") {
        (ValueKind::Boolean, "a bool")
    } else {
        return Err(NodeError::ConditionExpressionError(concat("Invalid variable type: ", var_type)));
    };
    let found = if ctx.scope < bb.num_scopes() {
        bb.get(ctx.scope, name, kind)
    } else {
        None
    };
    match found {
        Some(Value::Integer(n)) if kind == ValueKind::Integer => Ok(ExprVariable::Int(n)),
        Some(Value::String(s)) if kind == ValueKind::String => Ok(ExprVariable::Str(s)),
        Some(Value::Boolean(b)) if kind == ValueKind::Boolean => Ok(ExprVariable::Bool(b)),
        _ => Err(NodeError::BlackboardError(concat(
            concat("Couldn't load blackboard key ", name).as_str(),
            concat(" as ", what).as_str(),
        ))),
    }
}

} // verus!
