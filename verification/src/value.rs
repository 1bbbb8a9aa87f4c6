//! Values that are kept in the blackboard and given as port defaults.

use vstd::prelude::*;

use crate::basic_types::{status_text, NodeStatus};
use crate::text::{i64_to_string, int_decimal};

verus! {

broadcast use vstd::std_specs::vec::axiom_vec_decreases_to_view, vstd::std_specs::vec::axiom_vec_index_decreases;

/// The type of a [`Value`].
#[derive(Debug, Clone, Copy, PartialEq, Eq, Structural)]
pub enum ValueKind {
    Integer,
    String,
    Boolean,
    Status,
    Vec,
    Empty,
}

/// The name of a value type.
pub open spec fn kind_name(k: ValueKind) -> Seq<char> {
    match k {
        ValueKind::Integer => "Integer"@,
        ValueKind::String => "String"@,
        ValueKind::Boolean => "Boolean"@,
        ValueKind::Status => "NodeStatus"@,
        ValueKind::Vec => "Vec"@,
        ValueKind::Empty => "Empty"@,
    }
}

impl ValueKind {
    /// The name of the type.
    pub fn as_str(&self) -> (r: &'static str)
        ensures
            r@ == kind_name(*self),
    {
        match self {
            ValueKind::Integer => "Integer",
            ValueKind::String => "String",
            ValueKind::Boolean => "Boolean",
            ValueKind::Status => "NodeStatus",
            ValueKind::Vec => "Vec",
            ValueKind::Empty => "Empty",
        }
    }
}

/// A value held by the blackboard.
#[derive(Debug)]
pub enum Value {
    /// Integer-based value
    Integer(i64),
    /// String value
    String(String),
    /// Boolean value
    Boolean(bool),
    /// A node status
    Status(NodeStatus),
    /// Collection of `Value`s
    Vec(Vec<Value>),
    /// The unit value
    Empty,
}

/// The mathematical content of a [`Value`].
pub enum ValueModel {
    Integer(i64),
    String(Seq<char>),
    Boolean(bool),
    Status(NodeStatus),
    Vec(Seq<ValueModel>),
    Empty,
}

pub open spec fn value_model(v: Value) -> ValueModel
    decreases v,
{
    match v {
        Value::Integer(n) => ValueModel::Integer(n),
        Value::String(s) => ValueModel::String(s@),
        Value::Boolean(b) => ValueModel::Boolean(b),
        Value::Status(s) => ValueModel::Status(s),
        Value::Vec(items) => ValueModel::Vec(models_of(items@)),
        Value::Empty => ValueModel::Empty,
    }
}

pub open spec fn models_of(s: Seq<Value>) -> Seq<ValueModel>
    decreases s,
{
    if s.len() == 0 {
        Seq::empty()
    } else {
        models_of(s.drop_last()).push(value_model(s.last()))
    }
}

impl View for Value {
    type V = ValueModel;

    open spec fn view(&self) -> ValueModel {
        value_model(*self)
    }
}

pub open spec fn model_kind(m: ValueModel) -> ValueKind {
    match m {
        ValueModel::Integer(_) => ValueKind::Integer,
        ValueModel::String(_) => ValueKind::String,
        ValueModel::Boolean(_) => ValueKind::Boolean,
        ValueModel::Status(_) => ValueKind::Status,
        ValueModel::Vec(_) => ValueKind::Vec,
        ValueModel::Empty => ValueKind::Empty,
    }
}

/// The text of a value, where it has one: integers in decimal, strings as
/// they are, booleans and statuses by name, collections as `[a,b,c]`.
pub open spec fn model_text(m: ValueModel) -> Option<Seq<char>>
    decreases m,
{
    match m {
        ValueModel::Integer(n) => Some(int_decimal(n as int)),
        ValueModel::String(s) => Some(s),
        ValueModel::Boolean(b) => Some(
            if b {
                "true"@
            } else {
                "false"@
            },
        ),
        ValueModel::Status(s) => Some(status_text(s)),
        ValueModel::Vec(items) => match items_text(items) {
            Some(t) => Some(seq!['['] + t + seq![']']),
            None => None,
        },
        ValueModel::Empty => None,
    }
}

/// The texts of the items, separated by commas; `None` if one has no text.
pub open spec fn items_text(s: Seq<ValueModel>) -> Option<Seq<char>>
    decreases s,
{
    if s.len() == 0 {
        Some(Seq::empty())
    } else if s.len() == 1 {
        model_text(s[0])
    } else {
        match (items_text(s.drop_last()), model_text(s.last())) {
            (Some(a), Some(b)) => Some(a + seq![','] + b),
            _ => None,
        }
    }
}

proof fn lemma_models_of(s: Seq<Value>)
    ensures
        models_of(s).len() == s.len(),
        forall|i: int| 0 <= i < s.len() ==> #[trigger] models_of(s)[i] == value_model(s[i]),
    decreases s.len(),
{
    if s.len() > 0 {
        lemma_models_of(s.drop_last());
    }
}

proof fn lemma_items_text_none(s: Seq<ValueModel>, i: int)
    requires
        0 <= i < s.len(),
        model_text(s[i]) is None,
    ensures
        items_text(s) is None,
    decreases s.len(),
{
    if s.len() > 1 && i < s.len() - 1 {
        lemma_items_text_none(s.drop_last(), i);
    }
}

impl Value {
    /// The type of this value.
    pub open spec fn kind(&self) -> ValueKind {
        model_kind(self@)
    }

    /// The type of this value.
    pub fn value_kind(&self) -> (r: ValueKind)
        ensures
            r == self.kind(),
    {
        match self {
            Value::Integer(_) => ValueKind::Integer,
            Value::String(_) => ValueKind::String,
            Value::Boolean(_) => ValueKind::Boolean,
            Value::Status(_) => ValueKind::Status,
            Value::Vec(_) => ValueKind::Vec,
            Value::Empty => ValueKind::Empty,
        }
    }

    /// A copy of this value.
    pub fn copy(&self) -> (r: Value)
        ensures
            r@ == self@,
        decreases self,
    {
        match self {
            Value::Integer(n) => Value::Integer(*n),
            Value::String(s) => Value::String(s.clone()),
            Value::Boolean(b) => Value::Boolean(*b),
            Value::Status(s) => Value::Status(*s),
            Value::Vec(items) => {
                let mut out: Vec<Value> = Vec::new();
                let mut i: usize = 0;
                #[verifier::loop_isolation(false)]
                while i < items.len()
                    invariant
                        i <= items@.len(),
                        out@.len() == i,
                        forall|j: int| 0 <= j < i ==> (#[trigger] out@[j])@ == items@[j]@,
                    decreases items@.len() - i,
                {
                    let c = items[i].copy();
                    out.push(c);
                    i = i + 1;
                }
                proof {
                    lemma_models_of(out@);
                    lemma_models_of(items@);
                    assert(models_of(out@) =~= models_of(items@));
                }
                Value::Vec(out)
            },
            Value::Empty => Value::Empty,
        }
    }

    /// Returns the string representation of the value, or `None` if the value
    /// has none (the unit value, or a collection that holds one).
    pub fn as_string(&self) -> (r: Option<String>)
        ensures
            match r {
                Some(s) => model_text(self@) == Some(s@),
                None => model_text(self@) is None,
            },
        decreases self,
    {
        match self {
            Value::Integer(n) => Some(i64_to_string(*n)),
            Value::String(s) => Some(s.clone()),
            Value::Boolean(b) => {
                proof {
                    reveal_strlit("true");
                    reveal_strlit("false");
                }
                if *b {
                    Some(String::from_str("true"))
                } else {
                    Some(String::from_str("false"))
                }
            },
            Value::Status(s) => Some(String::from_str(s.as_str())),
            Value::Vec(vec) => {
                let ghost ms = models_of(vec@);
                proof {
                    lemma_models_of(vec@);
                }
                let n = vec.len();
                let mut output = String::from_str("[");
                proof {
                    reveal_strlit("[");
                    reveal_strlit(",");
                    reveal_strlit("]");
                }
                let mut i: usize = 0;
                #[verifier::loop_isolation(false)]
                while i < n
                    invariant
                        n == vec@.len(),
                        ms == models_of(vec@),
                        ms.len() == n,
                        forall|j: int| 0 <= j < n ==> #[trigger] ms[j] == value_model(vec@[j]),
                        i <= n,
                        i == 0 ==> output@ == seq!['['],
                        i > 0 ==> items_text(ms.subrange(0, i as int)) is Some && output@ == seq!['[']
                            + items_text(ms.subrange(0, i as int)).unwrap() + (if i < n {
                            seq![',']
                        } else {
                            Seq::empty()
                        }),
                    decreases n - i,
                {
                    let item_text = match vec[i].as_string() {
                        Some(t) => t,
                        None => {
                            proof {
                                lemma_items_text_none(ms, i as int);
                            }
                            return None;
                        },
                    };
                    let ghost pre = output@;
                    output.append(item_text.as_str());
                    if i < n - 1 {
                        output.append(",");
                    }
                    proof {
                        let t = ms.subrange(0, i + 1);
                        assert(t.last() == ms[i as int]);
                        assert(t.drop_last() =~= ms.subrange(0, i as int));
                        if i == 0 {
                            assert(t.len() == 1);
                        }
                    }
                    i = i + 1;
                    assert(output@ =~= seq!['['] + items_text(ms.subrange(0, i as int)).unwrap() + (
                    if i < n {
                        seq![',']
                    } else {
                        Seq::empty()
                    }));
                }
                output.append("]");
                proof {
                    assert(ms.subrange(0, n as int) =~= ms);
                }
                if n == 0 {
                    assert(output@ =~= seq!['['] + Seq::<char>::empty() + seq![']']);
                } else {
                    assert(output@ =~= seq!['['] + items_text(ms).unwrap() + seq![']']);
                }
                Some(output)
            },
            Value::Empty => None,
        }
    }
}

/// A value that can describe itself as a string.
pub trait BlackboardValue {
    /// Returns the string representation of the value, or `None` if the value
    /// is not representable as a string.
    fn as_string(&self) -> Option<String>;
}

impl BlackboardValue for Value {
    fn as_string(&self) -> (r: Option<String>)
        ensures
            match r {
                Some(s) => model_text(self@) == Some(s@),
                None => model_text(self@) is None,
            },
    {
        Value::as_string(self)
    }
}

} // verus!
