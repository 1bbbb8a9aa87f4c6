//! A hierarchy of key-value scopes. Each scope may have a parent, and may
//! route reads and writes of a key to its parent, either by an explicit
//! remapping rule or by auto-remapping. Scopes are addressed by their index;
//! the root scope has index 0.

use vstd::prelude::*;

use crate::basic_types::{lemma_status_text_round_trip, spec_status_from_str, NodeStatus};
use crate::strmap::StrMap;
use crate::text::{lemma_int_decimal_round_trip, parse_bool, parse_i64, spec_parse_i64};
use crate::value::{model_kind, model_text, Value, ValueKind, ValueModel};

verus! {

/// Where a key of a scope leads: to an existing entry, or to the scope and
/// key at which a write would create a new entry.
pub ghost enum Resolution {
    Existing(nat),
    Create(nat, Seq<char>),
}

/// The entry that a resolution leads to (0 for one that creates it).
pub open spec fn entry_of(r: Resolution) -> nat {
    match r {
        Resolution::Existing(e) => e,
        Resolution::Create(_, _) => 0,
    }
}

/// The value that a string holds when it is read as `kind`.
pub open spec fn spec_parse_as(s: Seq<char>, kind: ValueKind) -> Option<ValueModel> {
    match kind {
        ValueKind::Integer => match spec_parse_i64(s) {
            Some(n) => Some(ValueModel::Integer(n)),
            None => None,
        },
        ValueKind::Boolean => if s == "true"@ {
            Some(ValueModel::Boolean(true))
        } else if s == "false"@ {
            Some(ValueModel::Boolean(false))
        } else {
            None
        },
        ValueKind::Status => match spec_status_from_str(s) {
            Some(st) => Some(ValueModel::Status(st)),
            None => None,
        },
        ValueKind::String => Some(ValueModel::String(s)),
        _ => None,
    }
}

/// Reading the text of an integer, string, boolean or status as its own
/// type gives the value back: what a value is written as, it is read as.
pub proof fn lemma_text_round_trip(v: ValueModel)
    requires
        v is Integer || v is String || v is Boolean || v is Status,
    ensures
        spec_parse_as(model_text(v).unwrap(), model_kind(v)) == Some(v),
{
    reveal_strlit("true");
    reveal_strlit("false");
    match v {
        ValueModel::Integer(n) => {
            lemma_int_decimal_round_trip(n as int);
        },
        ValueModel::Status(st) => {
            lemma_status_text_round_trip(st);
        },
        ValueModel::Boolean(b) => {
            assert("true"@ != "false"@) by {
                assert("true"@.len() != "false"@.len());
            }
        },
        _ => {},
    }
}

/// The value that a stored value gives when it is read as `kind`: itself
/// when it is of that type, else a string parsed as `kind`.
pub open spec fn spec_convert(v: ValueModel, kind: ValueKind) -> Option<ValueModel> {
    if model_kind(v) == kind {
        Some(v)
    } else {
        match v {
            ValueModel::String(s) => spec_parse_as(s, kind),
            _ => None,
        }
    }
}

/// Parses `s` as a value of type `kind`.
pub fn parse_as(s: &str, kind: ValueKind) -> (r: Option<Value>)
    ensures
        match r {
            Some(v) => spec_parse_as(s@, kind) == Some(v@),
            None => spec_parse_as(s@, kind) is None,
        },
{
    match kind {
        ValueKind::Integer => match parse_i64(s) {
            Some(n) => Some(Value::Integer(n)),
            None => None,
        },
        ValueKind::Boolean => match parse_bool(s) {
            Some(b) => Some(Value::Boolean(b)),
            None => None,
        },
        ValueKind::Status => match NodeStatus::from_str(s) {
            Ok(st) => Some(Value::Status(st)),
            Err(_) => None,
        },
        ValueKind::String => Some(Value::String(crate::text::to_owned_string(s))),
        _ => None,
    }
}

/// The data of one scope.
#[derive(Debug)]
struct Scope {
    storage: StrMap<usize>,
    /// Manual remapping rules from this scope to its parent
    remappings: StrMap<String>,
    /// Whether to use auto-remapping
    auto_remapping: bool,
    parent: Option<usize>,
}

/// All scopes and entries.
#[derive(Debug)]
struct Board {
    scopes: Vec<Scope>,
    entries: Vec<Value>,
}

impl Board {
    spec fn wf(&self) -> bool {
        &&& self.scopes@.len() >= 1
        &&& forall|i: int|
            #![trigger self.scopes@[i]]
            0 <= i < self.scopes@.len() ==> {
                &&& (self.scopes@[i].parent is Some ==> self.scopes@[i].parent.unwrap() < i)
                &&& forall|k: Seq<char>| #[trigger]
                    self.scopes@[i].storage.map().contains_key(k)
                        ==> self.scopes@[i].storage.map()[k] < self.entries@.len()
            }
    }

    spec fn count(&self) -> nat {
        self.scopes@.len()
    }

    spec fn storage(&self, s: nat) -> Map<Seq<char>, usize> {
        self.scopes@[s as int].storage.map()
    }

    spec fn remapping(&self, s: nat) -> Map<Seq<char>, String> {
        self.scopes@[s as int].remappings.map()
    }

    spec fn auto(&self, s: nat) -> bool {
        self.scopes@[s as int].auto_remapping
    }

    spec fn parent(&self, s: nat) -> Option<usize> {
        self.scopes@[s as int].parent
    }

    spec fn resolve(&self, s: nat, key: Seq<char>) -> Resolution
        decreases s,
    {
        if self.storage(s).contains_key(key) {
            Resolution::Existing(self.storage(s)[key] as nat)
        } else {
            match self.parent(s) {
                Some(p) => if p < s {
                    if self.remapping(s).contains_key(key) {
                        self.resolve(p as nat, self.remapping(s)[key]@)
                    } else if self.auto(s) {
                        self.resolve(p as nat, key)
                    } else {
                        Resolution::Create(s, key)
                    }
                } else {
                    Resolution::Create(s, key)
                },
                None => Resolution::Create(s, key),
            }
        }
    }

    /// Same parents, rules and auto-remapping settings in every scope.
    spec fn same_structure(&self, other: &Board) -> bool {
        &&& self.count() == other.count()
        &&& forall|s: nat|
            s < self.count() ==> {
                &&& #[trigger] self.parent(s) == other.parent(s)
                &&& self.remapping(s) == other.remapping(s)
                &&& self.auto(s) == other.auto(s)
            }
    }

    spec fn same_resolution(&self, other: &Board) -> bool {
        forall|s: nat, k: Seq<char>| s < self.count() ==> #[trigger] self.resolve(s, k) == other.resolve(s, k)
    }

    proof fn lemma_resolve_existing(&self, s: nat, k: Seq<char>)
        requires
            self.wf(),
            s < self.count(),
        ensures
            self.resolve(s, k) is Existing ==> entry_of(self.resolve(s, k)) < self.entries@.len(),
            self.resolve(s, k) is Create ==> self.resolve(s, k)->Create_0 <= s,
        decreases s,
    {
        assert(self.scopes@[s as int] == self.scopes@[s as int]);
        if !self.storage(s).contains_key(k) {
            if let Some(p) = self.parent(s) {
                if p < s {
                    if self.remapping(s).contains_key(k) {
                        self.lemma_resolve_existing(p as nat, self.remapping(s)[k]@);
                    } else if self.auto(s) {
                        self.lemma_resolve_existing(p as nat, k);
                    }
                }
            }
        }
    }

    /// Two states that agree on the parents, rules, auto-remapping settings and
    /// storage of the scopes up to `s` agree on their resolutions.
    proof fn lemma_resolve_agree(&self, other: &Board, s: nat, k: Seq<char>)
        requires
            s < other.count(),
            s < self.count(),
            forall|i: nat|
                i <= s ==> {
                    &&& #[trigger] self.parent(i) == other.parent(i)
                    &&& self.remapping(i) == other.remapping(i)
                    &&& self.auto(i) == other.auto(i)
                    &&& self.storage(i) == other.storage(i)
                },
        ensures
            self.resolve(s, k) == other.resolve(s, k),
        decreases s,
    {
        assert(self.parent(s) == other.parent(s));
        if !self.storage(s).contains_key(k) {
            if let Some(p) = self.parent(s) {
                if p < s {
                    if self.remapping(s).contains_key(k) {
                        self.lemma_resolve_agree(other, p as nat, self.remapping(s)[k]@);
                    } else if self.auto(s) {
                        self.lemma_resolve_agree(other, p as nat, k);
                    }
                }
            }
        }
    }

    /// Adding to a scope an entry that its key already resolves to changes no
    /// resolution.
    proof fn lemma_cache(&self, other: &Board, c: nat, key: Seq<char>, e: nat, s: nat, k: Seq<char>)
        requires
            self.same_structure(other),
            c < self.count(),
            s < self.count(),
            forall|i: nat| i < self.count() && i != c ==> #[trigger] self.storage(i) == other.storage(i),
            self.storage(c) == other.storage(c).insert(key, e as usize),
            other.resolve(c, key) == Resolution::Existing(e),
            e <= usize::MAX,
        ensures
            self.resolve(s, k) == other.resolve(s, k),
        decreases s,
    {
        assert(self.parent(s) == other.parent(s));
        if s == c && k == key {
        } else {
            assert(self.storage(s).contains_key(k) == other.storage(s).contains_key(k));
            if !self.storage(s).contains_key(k) {
                if let Some(p) = self.parent(s) {
                    if p < s {
                        if self.remapping(s).contains_key(k) {
                            self.lemma_cache(other, c, key, e, p as nat, self.remapping(s)[k]@);
                        } else if self.auto(s) {
                            self.lemma_cache(other, c, key, e, p as nat, k);
                        }
                    }
                }
            } else {
                assert(self.storage(s)[k] == other.storage(s)[k]);
            }
        }
    }

    /// After an entry is created where a key resolved to be created, the key
    /// resolves to that entry.
    proof fn lemma_created(&self, other: &Board, t: nat, tk: Seq<char>, e: nat, s: nat, k: Seq<char>)
        requires
            self.same_structure(other),
            t < self.count(),
            s < self.count(),
            forall|i: nat| i < self.count() && i != t ==> #[trigger] self.storage(i) == other.storage(i),
            self.storage(t) == other.storage(t).insert(tk, e as usize),
            !other.storage(t).contains_key(tk),
            other.resolve(t, tk) == Resolution::Create(t, tk),
            e <= usize::MAX,
        ensures
            other.resolve(s, k) == Resolution::Create(t, tk) ==> self.resolve(s, k)
                == Resolution::Existing(e),
            other.resolve(s, k) != Resolution::Create(t, tk)
                ==> self.resolve(s, k) == other.resolve(s, k),
        decreases s,
    {
        assert(self.parent(s) == other.parent(s));
        if s == t && k == tk {
            if other.storage(s).contains_key(k) {
                assert(self.storage(s)[k] == e);
            }
        } else {
            assert(self.storage(s).contains_key(k) == other.storage(s).contains_key(k));
            if !self.storage(s).contains_key(k) {
                if let Some(p) = self.parent(s) {
                    if p < s {
                        if self.remapping(s).contains_key(k) {
                            self.lemma_created(other, t, tk, e, p as nat, self.remapping(s)[k]@);
                        } else if self.auto(s) {
                            self.lemma_created(other, t, tk, e, p as nat, k);
                        }
                    }
                }
            } else {
                assert(self.storage(s)[k] == other.storage(s)[k]);
            }
        }
    }

    /// A resolution that creates an entry names a scope and key that resolve
    /// to that creation themselves.
    proof fn lemma_create_fixed(&self, s: nat, k: Seq<char>)
        requires
            self.wf(),
            s < self.count(),
            self.resolve(s, k) is Create,
        ensures
            self.resolve(s, k)->Create_0 < self.count(),
            self.resolve(self.resolve(s, k)->Create_0, self.resolve(s, k)->Create_1) == self.resolve(s, k),
        decreases s,
    {
        assert(self.scopes@[s as int] == self.scopes@[s as int]);
        if !self.storage(s).contains_key(k) {
            if let Some(p) = self.parent(s) {
                if p < s {
                    if self.remapping(s).contains_key(k) {
                        self.lemma_create_fixed(p as nat, self.remapping(s)[k]@);
                    } else if self.auto(s) {
                        self.lemma_create_fixed(p as nat, k);
                    }
                }
            }
        }
    }

    /// Two states with the same scopes have the same structure and
    /// resolutions.
    proof fn lemma_same_scopes(&self, other: &Board)
        requires
            self.scopes@ == other.scopes@,
        ensures
            self.same_structure(other),
            other.same_structure(self),
            self.same_resolution(other),
            forall|s: nat| #[trigger] self.storage(s) == other.storage(s),
    {
        assert forall|s: nat, k: Seq<char>| s < self.count() implies #[trigger] self.resolve(s, k)
            == other.resolve(s, k) by {
            assert forall|i: nat| i <= s implies {
                &&& #[trigger] self.parent(i) == other.parent(i)
                &&& self.remapping(i) == other.remapping(i)
                &&& self.auto(i) == other.auto(i)
                &&& self.storage(i) == other.storage(i)
            } by {}
            self.lemma_resolve_agree(other, s, k);
        }
    }

    /// The entry that `key` of `scope` resolves to, if any. An entry found in
    /// the parent through a remapping rule is remembered by the scope.
    fn get_entry(&mut self, scope: usize, key: &str) -> (r: Option<usize>)
        requires
            old(self).wf(),
            scope < old(self).count(),
        ensures
            final(self).wf(),
            final(self).same_structure(old(self)),
            final(self).same_resolution(old(self)),
            final(self).entries@ == old(self).entries@,
            match old(self).resolve(scope as nat, key@) {
                Resolution::Existing(e) => r == Some(e as usize),
                Resolution::Create(_, _) => r is None,
            },
        decreases scope,
    {
        let ghost pre = *self;
        proof {
            pre.lemma_resolve_existing(scope as nat, key@);
            assert(self.scopes@[scope as int] == self.scopes@[scope as int]);
        }
        let found = match self.scopes[scope].storage.get(key) {
            Some(e) => Some(*e),
            None => None,
        };
        if found.is_some() {
            return found;
        }
        match self.scopes[scope].parent {
            Some(p) => {
                let remapped: Option<String> = match self.scopes[scope].remappings.get(key) {
                    Some(k) => Some(k.clone()),
                    None => None,
                };
                match remapped {
                    Some(new_key) => {
                        let pe = self.get_entry(p, new_key.as_str());
                        let ghost mid = *self;
                        if let Some(e) = pe {
                            let owned_key = crate::text::to_owned_string(key);
                            let sc = &mut self.scopes[scope];
                            sc.storage.insert(owned_key, e);
                            proof {
                                assert(self.storage(scope as nat) == mid.storage(
                                    scope as nat,
                                ).insert(key@, e));
                                assert forall|i: nat|
                                    i < self.count() && i != scope implies #[trigger] self.storage(
                                    i,
                                ) == mid.storage(i) by {
                                    assert(self.scopes@[i as int] == mid.scopes@[i as int]);
                                }
                                pre.lemma_resolve_existing(p as nat, new_key@);
                                assert(pre.resolve(scope as nat, key@) == pre.resolve(
                                    p as nat,
                                    new_key@,
                                ));
                                assert(pre.resolve(p as nat, new_key@) is Existing);
                                assert(entry_of(pre.resolve(p as nat, new_key@)) < pre.entries@.len());
                                assert(pre.entries.len() == pre.entries@.len());
                                assert(entry_of(pre.resolve(p as nat, new_key@)) == e as nat);
                                assert(mid.same_resolution(&pre));
                                assert(mid.count() == pre.count());
                                assert(mid.resolve(scope as nat, key@) == pre.resolve(
                                    scope as nat,
                                    key@,
                                ));
                                assert(mid.resolve(scope as nat, key@) == Resolution::Existing(
                                    e as nat,
                                ));
                                assert forall|s: nat, k: Seq<char>|
                                    s < self.count() implies #[trigger] self.resolve(s, k)
                                    == pre.resolve(s, k) by {
                                    self.lemma_cache(&mid, scope as nat, key@, e as nat, s, k);
                                }
                                assert forall|i: int| 0 <= i < self.scopes@.len() implies
                                    #[trigger] self.scopes@[i].parent == mid.scopes@[i].parent by {}
                                assert forall|i: nat| i < self.count() implies {
                                    &&& #[trigger] self.parent(i) == mid.parent(i)
                                    &&& self.remapping(i) == mid.remapping(i)
                                    &&& self.auto(i) == mid.auto(i)
                                } by {
                                    if i != scope {
                                        assert(self.scopes@[i as int] == mid.scopes@[i as int]);
                                    }
                                }
                            }
                        }
                        pe
                    },
                    None => {
                        if self.scopes[scope].auto_remapping {
                            self.get_entry(p, key)
                        } else {
                            None
                        }
                    },
                }
            },
            None => None,
        }
    }
    /// Writes `value` where `key` of `scope` leads: into the entry it resolves
    /// to, or into a new entry of the scope and key at which it would be
    /// created.
    fn update_or_create(&mut self, scope: usize, key: &str, value: Value)
        requires
            old(self).wf(),
            scope < old(self).count(),
        ensures
            final(self).wf(),
            final(self).same_structure(old(self)),
            match old(self).resolve(scope as nat, key@) {
                Resolution::Existing(e) => {
                    &&& final(self).entries@ == old(self).entries@.update(e as int, value)
                    &&& forall|i: nat| i < old(self).count() ==> #[trigger] final(self).storage(i) == old(self).storage(i)
                },
                Resolution::Create(t, k) => {
                    &&& final(self).entries@ == old(self).entries@.push(value)
                    &&& final(self).storage(t) == old(self).storage(t).insert(k, old(self).entries@.len() as usize)
                    &&& !old(self).storage(t).contains_key(k)
                    &&& forall|i: nat| i < old(self).count() && i != t ==> #[trigger] final(self).storage(i) == old(self).storage(i)
                },
            },
        decreases scope,
    {
        let ghost pre = *self;
        proof {
            pre.lemma_resolve_existing(scope as nat, key@);
            assert(self.scopes@[scope as int] == self.scopes@[scope as int]);
        }
        let found = match self.scopes[scope].storage.get(key) {
            Some(e) => Some(*e),
            None => None,
        };
        if let Some(e) = found {
            self.entries.set(e, value);
            proof {
                assert forall|i: int| 0 <= i < self.scopes@.len() implies {
                    &&& (#[trigger] self.scopes@[i]).parent is Some ==> self.scopes@[i].parent.unwrap() < i
                    &&& forall|k: Seq<char>| #[trigger]
                        self.scopes@[i].storage.map().contains_key(k)
                            ==> self.scopes@[i].storage.map()[k] < self.entries@.len()
                } by {
                    assert(pre.scopes@[i] == pre.scopes@[i]);
                }
            }
            return;
        }
        let parent = self.scopes[scope].parent;
        let remapped: Option<String> = match self.scopes[scope].remappings.get(key) {
            Some(k) => Some(k.clone()),
            None => None,
        };
        let auto = self.scopes[scope].auto_remapping;
        match parent {
            Some(p) if remapped.is_some() => {
                let new_key = remapped.unwrap();
                self.update_or_create(p, new_key.as_str(), value);
            },
            Some(p) if auto => {
                self.update_or_create(p, key, value);
            },
            _ => {
                let n = self.entries.len();
                self.entries.push(value);
                let owned_key = crate::text::to_owned_string(key);
                let sc = &mut self.scopes[scope];
                sc.storage.insert(owned_key, n);
                proof {
                    assert forall|i: int| 0 <= i < self.scopes@.len() implies {
                        &&& (#[trigger] self.scopes@[i]).parent is Some ==> self.scopes@[i].parent.unwrap() < i
                        &&& forall|k: Seq<char>| #[trigger]
                            self.scopes@[i].storage.map().contains_key(k)
                                ==> self.scopes@[i].storage.map()[k] < self.entries@.len()
                    } by {
                        assert(pre.scopes@[i] == pre.scopes@[i]);
                    }
                    assert forall|i: nat| i < pre.count() && i != scope implies #[trigger] self.storage(i)
                        == pre.storage(i) by {
                        assert(self.scopes@[i as int] == pre.scopes@[i as int]);
                    }
                    assert forall|i: nat| i < self.count() implies {
                        &&& #[trigger] self.parent(i) == pre.parent(i)
                        &&& self.remapping(i) == pre.remapping(i)
                        &&& self.auto(i) == pre.auto(i)
                    } by {
                        assert(self.scopes@[i as int].parent == pre.scopes@[i as int].parent);
                    }
                }
            },
        }
    }

}

/// Stores values by key in a hierarchy of scopes.
///
/// A scope created with [`Blackboard::with_parent`] reads and writes a key in
/// its parent when it has no entry of its own for the key and either a
/// remapping rule for the key or auto-remapping applies. An entry reached
/// through a remapping rule is remembered by the child, which from then on
/// shares it with the parent.
#[derive(Debug)]
pub struct Blackboard {
    board: Board,
}

impl Blackboard {
    #[verifier::type_invariant]
    closed spec fn inv(self) -> bool {
        self.board.wf()
    }

    /// The number of scopes.
    pub closed spec fn scope_count(&self) -> nat {
        self.board.count()
    }

    /// The number of entries.
    pub closed spec fn entry_count(&self) -> nat {
        self.board.entries@.len()
    }

    /// The value of entry `e`.
    pub closed spec fn entry(&self, e: nat) -> ValueModel {
        self.board.entries@[e as int]@
    }

    /// The entries of scope `s` by key.
    pub closed spec fn storage(&self, s: nat) -> Map<Seq<char>, usize> {
        self.board.storage(s)
    }

    /// The remapping rules of scope `s`, from its keys to its parent's.
    pub closed spec fn remapping(&self, s: nat) -> Map<Seq<char>, String> {
        self.board.remapping(s)
    }

    /// Whether scope `s` uses auto-remapping.
    pub closed spec fn auto(&self, s: nat) -> bool {
        self.board.auto(s)
    }

    /// The parent of scope `s`.
    pub closed spec fn parent(&self, s: nat) -> Option<usize> {
        self.board.parent(s)
    }

    /// Where `key` of scope `s` leads: the scope's own entry for the key; else,
    /// when the scope has a parent, the parent's resolution of the remapped
    /// key, or of the key itself under auto-remapping; else the place where a
    /// write creates the entry, in `s` itself.
    pub closed spec fn resolve(&self, s: nat, key: Seq<char>) -> Resolution {
        self.board.resolve(s, key)
    }

    /// The value that reading `key` in scope `s` finds, if any.
    pub open spec fn read(&self, s: nat, key: Seq<char>) -> Option<ValueModel> {
        if s < self.scope_count() {
            match self.resolve(s, key) {
                Resolution::Existing(e) => Some(self.entry(e)),
                Resolution::Create(_, _) => None,
            }
        } else {
            None
        }
    }

    /// Every key of every scope leads to the same place in both states.
    pub open spec fn same_resolution(&self, other: &Blackboard) -> bool {
        forall|s: nat, k: Seq<char>|
            s < self.scope_count() ==> #[trigger] self.resolve(s, k) == other.resolve(s, k)
    }

    /// Every scope keeps its parent, its rules and its auto-remapping setting.
    pub open spec fn same_structure(&self, other: &Blackboard) -> bool {
        &&& self.scope_count() == other.scope_count()
        &&& forall|s: nat|
            s < self.scope_count() ==> {
                &&& #[trigger] self.parent(s) == other.parent(s)
                &&& self.remapping(s) == other.remapping(s)
                &&& self.auto(s) == other.auto(s)
            }
    }

    /// What reading `key` in scope `s` as `kind` gives.
    /// `self` is `old` with scopes added: each scope of `old` keeps its
    /// parent, its remappings and its auto-remapping setting.
    pub open spec fn extends(self, old: Blackboard) -> bool {
        &&& old.scope_count() <= self.scope_count()
        &&& forall|s: nat|
            s < old.scope_count() ==> {
                &&& #[trigger] self.parent(s) == old.parent(s)
                &&& self.remapping(s) == old.remapping(s)
                &&& self.auto(s) == old.auto(s)
            }
    }

    /// The remappings of scope `s`, each key with the text it stands for.
    pub open spec fn remapping_view(&self, s: nat) -> Map<Seq<char>, Seq<char>> {
        self.remapping(s).map_values(|v: String| v@)
    }

    pub open spec fn spec_get(&self, s: nat, key: Seq<char>, kind: ValueKind) -> Option<ValueModel> {
        match self.read(s, key) {
            Some(v) => spec_convert(v, kind),
            None => None,
        }
    }

    /// What [`Blackboard::get`] does to the blackboard: nothing but that a
    /// string that was read as another type is replaced by the parsed value.
    pub open spec fn get_effect(&self, old: &Blackboard, s: nat, key: Seq<char>, kind: ValueKind) -> bool {
        &&& self.same_structure(old)
        &&& self.same_resolution(old)
        &&& self.entry_count() == old.entry_count()
        &&& forall|e: nat|
            e < old.entry_count() && !(s < old.scope_count() && old.resolve(s, key) == Resolution::Existing(e))
                ==> #[trigger] self.entry(e) == old.entry(e)
        &&& self.read(s, key) == match old.read(s, key) {
            Some(v) => match spec_convert(v, kind) {
                Some(c) => Some(c),
                None => Some(v),
            },
            None => None,
        }
    }

    /// What writing `value` at `key` of scope `s` does.
    pub open spec fn set_effect(&self, old: &Blackboard, s: nat, key: Seq<char>, value: ValueModel) -> bool {
        &&& self.same_structure(old)
        &&& match old.resolve(s, key) {
            Resolution::Existing(e) => {
                &&& self.entry_count() == old.entry_count()
                &&& self.entry(e) == value
                &&& forall|f: nat| f < old.entry_count() && f != e ==> #[trigger] self.entry(f) == old.entry(f)
                &&& self.same_resolution(old)
            },
            Resolution::Create(t, k) => {
                &&& self.entry_count() == old.entry_count() + 1
                &&& self.entry(old.entry_count()) == value
                &&& forall|f: nat| f < old.entry_count() ==> #[trigger] self.entry(f) == old.entry(f)
                &&& self.storage(t) == old.storage(t).insert(k, old.entry_count() as usize)
                &&& forall|i: nat| i < old.scope_count() && i != t ==> #[trigger] self.storage(i) == old.storage(i)
            },
        }
    }

    /// Creates a blackboard with a single, root scope.
    pub fn new() -> (r: Blackboard)
        ensures
            r.scope_count() == 1,
            r.entry_count() == 0,
            r.parent(0) is None,
            !r.auto(0),
            r.remapping(0) == Map::<Seq<char>, String>::empty(),
            r.storage(0) == Map::<Seq<char>, usize>::empty(),
            forall|k: Seq<char>| #[trigger] r.read(0, k) is None,
    {
        let root = Scope {
            storage: StrMap::new(),
            remappings: StrMap::new(),
            auto_remapping: false,
            parent: None,
        };
        let mut scopes = Vec::new();
        scopes.push(root);
        let board = Board { scopes, entries: Vec::new() };
        let r = Blackboard { board };
        assert forall|k: Seq<char>| #[trigger] r.read(0, k) is None by {
            assert(!r.storage(0).contains_key(k));
        }
        r
    }

    /// Takes the data out, leaving an empty blackboard in its place.
    fn take_board(&mut self) -> (r: Board)
        ensures
            r == old(self).board,
            r.wf(),
    {
        proof {
            use_type_invariant(&*self);
        }
        let mut other = Blackboard::new();
        std::mem::swap(self, &mut other);
        let Blackboard { board } = other;
        board
    }

    /// The index of the root scope.
    pub fn root(&self) -> (r: usize)
        ensures
            r == 0,
            r < self.scope_count(),
    {
        proof {
            use_type_invariant(self);
        }
        0
    }

    /// The number of scopes.
    pub fn num_scopes(&self) -> (r: usize)
        ensures
            r == self.scope_count(),
    {
        self.board.scopes.len()
    }

    /// Creates a scope whose parent is `parent` and returns its index. The
    /// new scope has no entries, no remapping rules and no auto-remapping.
    pub fn with_parent(&mut self, parent: usize) -> (r: usize)
        requires
            parent < old(self).scope_count(),
        ensures
            r == old(self).scope_count(),
            final(self).scope_count() == old(self).scope_count() + 1,
            final(self).parent(r as nat) == Some(parent),
            !final(self).auto(r as nat),
            final(self).remapping(r as nat) == Map::<Seq<char>, String>::empty(),
            final(self).storage(r as nat) == Map::<Seq<char>, usize>::empty(),
            forall|s: nat|
                s < old(self).scope_count() ==> {
                    &&& #[trigger] final(self).parent(s) == old(self).parent(s)
                    &&& final(self).remapping(s) == old(self).remapping(s)
                    &&& final(self).auto(s) == old(self).auto(s)
                    &&& final(self).storage(s) == old(self).storage(s)
                },
            forall|e: nat| #[trigger] final(self).entry(e) == old(self).entry(e),
            final(self).entry_count() == old(self).entry_count(),
            forall|s: nat, k: Seq<char>|
                s < old(self).scope_count() ==> #[trigger] final(self).resolve(s, k) == old(
                    self,
                ).resolve(s, k),
    {
        let mut b = self.take_board();
        let ghost pre = b;
        let scope = Scope {
            storage: StrMap::new(),
            remappings: StrMap::new(),
            auto_remapping: false,
            parent: Some(parent),
        };
        let r = b.scopes.len();
        b.scopes.push(scope);
        proof {
            assert forall|i: int| 0 <= i < b.scopes@.len() implies {
                &&& (#[trigger] b.scopes@[i]).parent is Some ==> b.scopes@[i].parent.unwrap() < i
                &&& forall|k: Seq<char>| #[trigger]
                    b.scopes@[i].storage.map().contains_key(k)
                        ==> b.scopes@[i].storage.map()[k] < b.entries@.len()
            } by {
                if i < r {
                    assert(b.scopes@[i] == pre.scopes@[i]);
                }
            }
            assert forall|s: nat, k: Seq<char>| s < pre.count() implies #[trigger] b.resolve(s, k)
                == pre.resolve(s, k) by {
                assert forall|i: nat| i <= s implies {
                    &&& #[trigger] b.parent(i) == pre.parent(i)
                    &&& b.remapping(i) == pre.remapping(i)
                    &&& b.auto(i) == pre.auto(i)
                    &&& b.storage(i) == pre.storage(i)
                } by {
                    assert(b.scopes@[i as int] == pre.scopes@[i as int]);
                }
                b.lemma_resolve_agree(&pre, s, k);
            }
            assert forall|s: nat| s < pre.count() implies {
                &&& #[trigger] b.parent(s) == pre.parent(s)
                &&& b.remapping(s) == pre.remapping(s)
                &&& b.auto(s) == pre.auto(s)
                &&& b.storage(s) == pre.storage(s)
            } by {
                assert(b.scopes@[s as int] == pre.scopes@[s as int]);
            }
        }
        *self = Blackboard { board: b };
        r
    }

    /// Enables or disables auto-remapping for `scope`: when enabled, a key
    /// without an entry or an explicit rule in the scope is read from and
    /// written to the parent.
    pub fn set_auto_remapping(&mut self, scope: usize, use_remapping: bool)
        ensures
            // A scope that this blackboard does not have is left alone.
            scope >= old(self).scope_count() ==> *final(self) == *old(self),
            final(self).scope_count() == old(self).scope_count(),
            scope < old(self).scope_count() ==> final(self).auto(scope as nat) == use_remapping,
            final(self).parent(scope as nat) == old(self).parent(scope as nat),
            final(self).remapping(scope as nat) == old(self).remapping(scope as nat),
            final(self).storage(scope as nat) == old(self).storage(scope as nat),
            forall|s: nat|
                s < old(self).scope_count() && s != scope ==> {
                    &&& #[trigger] final(self).parent(s) == old(self).parent(s)
                    &&& final(self).remapping(s) == old(self).remapping(s)
                    &&& final(self).auto(s) == old(self).auto(s)
                    &&& final(self).storage(s) == old(self).storage(s)
                },
            forall|e: nat| #[trigger] final(self).entry(e) == old(self).entry(e),
            final(self).entry_count() == old(self).entry_count(),
            // The scopes before it read what they read before.
            forall|s: nat, k: Seq<char>| s < scope ==> #[trigger] final(self).read(s, k) == old(self).read(s, k),
    {
        if scope >= self.num_scopes() {
            return;
        }
        let mut b = self.take_board();
        let ghost pre = b;
        let sc = &mut b.scopes[scope];
        sc.auto_remapping = use_remapping;
        proof {
            assert forall|i: int| 0 <= i < b.scopes@.len() implies {
                &&& (#[trigger] b.scopes@[i]).parent is Some ==> b.scopes@[i].parent.unwrap() < i
                &&& forall|k: Seq<char>| #[trigger]
                    b.scopes@[i].storage.map().contains_key(k)
                        ==> b.scopes@[i].storage.map()[k] < b.entries@.len()
            } by {
                assert(pre.scopes@[i] == pre.scopes@[i]);
            }
            assert forall|s: nat| s < pre.count() && s != scope implies {
                &&& #[trigger] b.parent(s) == pre.parent(s)
                &&& b.remapping(s) == pre.remapping(s)
                &&& b.auto(s) == pre.auto(s)
                &&& b.storage(s) == pre.storage(s)
            } by {
                assert(b.scopes@[s as int] == pre.scopes@[s as int]);
            }
        }
        proof {
            assert forall|s2: nat, k2: Seq<char>| s2 < scope implies #[trigger] b.resolve(s2, k2) == pre.resolve(s2, k2) by {
                assert forall|i: nat| i <= s2 implies {
                    &&& #[trigger] b.parent(i) == pre.parent(i)
                    &&& b.remapping(i) == pre.remapping(i)
                    &&& b.auto(i) == pre.auto(i)
                    &&& b.storage(i) == pre.storage(i)
                } by {
                    assert(b.scopes@[i as int] == pre.scopes@[i as int]);
                }
                b.lemma_resolve_agree(&pre, s2, k2);
            }
            assert(b.entries@ == pre.entries@);
        }
        *self = Blackboard { board: b };
    }

    /// Adds a remapping rule to `scope`, from its key `internal` to the key
    /// `external` of its parent. A later rule for the same key replaces it.
    pub fn add_subtree_remapping(&mut self, scope: usize, internal: String, external: String)
        ensures
            // A scope that this blackboard does not have is left alone.
            scope >= old(self).scope_count() ==> *final(self) == *old(self),
            final(self).scope_count() == old(self).scope_count(),
            scope < old(self).scope_count() ==> final(self).remapping(scope as nat) == old(self).remapping(scope as nat).insert(
                internal@,
                external,
            ),
            final(self).auto(scope as nat) == old(self).auto(scope as nat),
            final(self).parent(scope as nat) == old(self).parent(scope as nat),
            final(self).storage(scope as nat) == old(self).storage(scope as nat),
            forall|s: nat|
                s < old(self).scope_count() && s != scope ==> {
                    &&& #[trigger] final(self).parent(s) == old(self).parent(s)
                    &&& final(self).remapping(s) == old(self).remapping(s)
                    &&& final(self).auto(s) == old(self).auto(s)
                    &&& final(self).storage(s) == old(self).storage(s)
                },
            forall|e: nat| #[trigger] final(self).entry(e) == old(self).entry(e),
            final(self).entry_count() == old(self).entry_count(),
            // The scopes before it read what they read before.
            forall|s: nat, k: Seq<char>| s < scope ==> #[trigger] final(self).read(s, k) == old(self).read(s, k),
    {
        if scope >= self.num_scopes() {
            return;
        }
        let mut b = self.take_board();
        let ghost pre = b;
        let sc = &mut b.scopes[scope];
        sc.remappings.insert(internal, external);
        proof {
            assert forall|i: int| 0 <= i < b.scopes@.len() implies {
                &&& (#[trigger] b.scopes@[i]).parent is Some ==> b.scopes@[i].parent.unwrap() < i
                &&& forall|k: Seq<char>| #[trigger]
                    b.scopes@[i].storage.map().contains_key(k)
                        ==> b.scopes@[i].storage.map()[k] < b.entries@.len()
            } by {
                assert(pre.scopes@[i] == pre.scopes@[i]);
            }
            assert forall|s: nat| s < pre.count() && s != scope implies {
                &&& #[trigger] b.parent(s) == pre.parent(s)
                &&& b.remapping(s) == pre.remapping(s)
                &&& b.auto(s) == pre.auto(s)
                &&& b.storage(s) == pre.storage(s)
            } by {
                assert(b.scopes@[s as int] == pre.scopes@[s as int]);
            }
        }
        proof {
            assert forall|s2: nat, k2: Seq<char>| s2 < scope implies #[trigger] b.resolve(s2, k2) == pre.resolve(s2, k2) by {
                assert forall|i: nat| i <= s2 implies {
                    &&& #[trigger] b.parent(i) == pre.parent(i)
                    &&& b.remapping(i) == pre.remapping(i)
                    &&& b.auto(i) == pre.auto(i)
                    &&& b.storage(i) == pre.storage(i)
                } by {
                    assert(b.scopes@[i as int] == pre.scopes@[i as int]);
                }
                b.lemma_resolve_agree(&pre, s2, k2);
            }
            assert(b.entries@ == pre.entries@);
        }
        *self = Blackboard { board: b };
    }
    /// Writes `value` at `key` of `scope`: into the entry that the key leads
    /// to if there is one, else into a new entry where it would be created.
    /// Afterwards the key reads back `value`, and so does every key that led to
    /// the same place; every other key reads what it read before.
    pub fn set(&mut self, scope: usize, key: &str, value: Value)
        ensures
            // A scope that this blackboard does not have is left alone.
            scope >= old(self).scope_count() ==> *final(self) == *old(self),
            scope < old(self).scope_count() ==> final(self).set_effect(old(self), scope as nat, key@, value@),
            scope < old(self).scope_count() ==> final(self).read(scope as nat, key@) == Some(value@),
            scope < old(self).scope_count() ==> forall|s: nat, k: Seq<char>|
                s < old(self).scope_count() && old(self).resolve(s, k) == old(self).resolve(scope as nat, key@)
                    ==> #[trigger] final(self).read(s, k) == Some(value@),
            scope < old(self).scope_count() ==> forall|s: nat, k: Seq<char>|
                s < old(self).scope_count() && old(self).resolve(s, k) != old(self).resolve(scope as nat, key@)
                    ==> #[trigger] final(self).read(s, k) == old(self).read(s, k),
            // A key that the scope has no entry, rule or auto-remapping for is
            // written into a new entry of the scope itself: the scopes before
            // it read what they read before.
            scope < old(self).scope_count() && !old(self).storage(scope as nat).contains_key(key@)
                && !old(self).remapping(scope as nat).contains_key(key@) && !old(self).auto(scope as nat)
                ==> forall|s: nat, k: Seq<char>| s < scope ==> #[trigger] final(self).read(s, k) == old(self).read(s, k),
    {
        if scope >= self.num_scopes() {
            return;
        }
        let mut b = self.take_board();
        let ghost pre = b;
        let ghost vm = value@;
        proof {
            pre.lemma_resolve_existing(scope as nat, key@);
        }
        proof {
            assert(pre.entries.len() == pre.entries@.len());
        }
        b.update_or_create(scope, key, value);
        proof {
            if !pre.storage(scope as nat).contains_key(key@) && !pre.remapping(scope as nat).contains_key(key@)
                && !pre.auto(scope as nat) {
                assert(pre.resolve(scope as nat, key@) == Resolution::Create(scope as nat, key@));
                assert forall|s2: nat, k2: Seq<char>| s2 < scope implies
                    #[trigger] pre.resolve(s2, k2) != pre.resolve(scope as nat, key@) by {
                    pre.lemma_resolve_existing(s2, k2);
                }
            }
        }
        proof {
            assert(b.same_structure(&pre));
            match pre.resolve(scope as nat, key@) {
                Resolution::Existing(e) => {
                    assert forall|s: nat, k: Seq<char>| s < pre.count() implies #[trigger] b.resolve(s, k)
                        == pre.resolve(s, k) by {
                        assert forall|i: nat| i <= s implies {
                            &&& #[trigger] b.parent(i) == pre.parent(i)
                            &&& b.remapping(i) == pre.remapping(i)
                            &&& b.auto(i) == pre.auto(i)
                            &&& b.storage(i) == pre.storage(i)
                        } by {}
                        b.lemma_resolve_agree(&pre, s, k);
                    }
                    assert forall|s: nat, k: Seq<char>| s < pre.count() implies
                        #[trigger] pre.resolve(s, k) is Existing ==> entry_of(pre.resolve(s, k)) < pre.entries@.len() by {
                        pre.lemma_resolve_existing(s, k);
                    }
                },
                Resolution::Create(t, tk) => {
                    assert(pre.resolve(t, tk) == Resolution::Create(t, tk)) by {
                        pre.lemma_create_fixed(scope as nat, key@);
                    }
                    assert(pre.entries.len() == pre.entries@.len());
                    assert forall|s: nat, k: Seq<char>| s < pre.count() implies {
                        &&& (pre.resolve(s, k) == Resolution::Create(t, tk) ==> #[trigger] b.resolve(s, k)
                            == Resolution::Existing(pre.entries@.len()))
                        &&& (pre.resolve(s, k) != Resolution::Create(t, tk) ==> b.resolve(s, k) == pre.resolve(s, k))
                    } by {
                        b.lemma_created(&pre, t, tk, pre.entries@.len(), s, k);
                    }
                    assert forall|s: nat, k: Seq<char>| s < pre.count() implies
                        #[trigger] pre.resolve(s, k) is Existing ==> entry_of(pre.resolve(s, k)) < pre.entries@.len() by {
                        pre.lemma_resolve_existing(s, k);
                    }
                },
            }
        }
        *self = Blackboard { board: b };
    }

    /// Reads `key` of `scope` as a value of type `kind`. A stored value of
    /// that type is returned as it is; a stored string is parsed as `kind`,
    /// and on success the entry is replaced by the parsed value. Reading an
    /// entry through a remapping rule makes the scope remember the entry.
    pub fn get(&mut self, scope: usize, key: &str, kind: ValueKind) -> (r: Option<Value>)
        ensures
            // A scope that this blackboard does not have reads nothing.
            scope >= old(self).scope_count() ==> r is None && *final(self) == *old(self),
            scope < old(self).scope_count() ==> match r {
                Some(v) => old(self).spec_get(scope as nat, key@, kind) == Some(v@),
                None => old(self).spec_get(scope as nat, key@, kind) is None,
            },
            scope < old(self).scope_count() ==> final(self).get_effect(old(self), scope as nat, key@, kind),
            // Only a string that is parsed as another type changes what is
            // read; a key that reads nothing still reads nothing.
            !(old(self).read(scope as nat, key@) matches Some(v) && model_kind(v) != kind && spec_convert(v, kind) is Some)
                ==> forall|s2: nat, k2: Seq<char>| #[trigger] final(self).read(s2, k2) == old(self).read(s2, k2),
            forall|s2: nat, k2: Seq<char>| #[trigger] old(self).read(s2, k2) is None ==> final(self).read(s2, k2) is None,
    {
        if scope >= self.num_scopes() {
            return None;
        }
        let mut b = self.take_board();
        let ghost pre = b;
        proof {
            pre.lemma_resolve_existing(scope as nat, key@);
        }
        proof {
            assert(pre.entries.len() == pre.entries@.len());
        }
        let found = b.get_entry(scope, key);
        let ghost mid = b;
        let r = match found {
            Some(e) => {
                let current = &b.entries[e];
                if current.value_kind() == kind {
                    Some(current.copy())
                } else {
                    let parsed = match current {
                        Value::String(s) => parse_as(s.as_str(), kind),
                        _ => None,
                    };
                    match parsed {
                        Some(p) => {
                            let keep = p.copy();
                            b.entries.set(e, p);
                            Some(keep)
                        },
                        None => None,
                    }
                }
            },
            None => None,
        };
        proof {
            assert forall|i: int| 0 <= i < b.scopes@.len() implies {
                &&& (#[trigger] b.scopes@[i]).parent is Some ==> b.scopes@[i].parent.unwrap() < i
                &&& forall|k: Seq<char>| #[trigger]
                    b.scopes@[i].storage.map().contains_key(k)
                        ==> b.scopes@[i].storage.map()[k] < b.entries@.len()
            } by {
                assert(mid.scopes@[i] == mid.scopes@[i]);
            }
            b.lemma_same_scopes(&mid);
            assert(b.same_structure(&pre)) by {
                assert forall|s: nat| s < b.count() implies {
                    &&& #[trigger] b.parent(s) == pre.parent(s)
                    &&& b.remapping(s) == pre.remapping(s)
                    &&& b.auto(s) == pre.auto(s)
                } by {
                    assert(mid.parent(s) == pre.parent(s));
                }
            }
            assert(b.same_resolution(&pre)) by {
                assert forall|s: nat, k: Seq<char>| s < b.count() implies #[trigger] b.resolve(s, k)
                    == pre.resolve(s, k) by {
                    assert(mid.resolve(s, k) == pre.resolve(s, k));
                }
            }
        }
        proof {
            if pre.resolve(scope as nat, key@) is Existing {
                let v = pre.entries@[pre.resolve(scope as nat, key@)->Existing_0 as int]@;
                if !(model_kind(v) != kind && spec_convert(v, kind) is Some) {
                    assert(b.entries@ =~= pre.entries@);
                }
            } else {
                assert(b.entries@ =~= pre.entries@);
            }
        }
        *self = Blackboard { board: b };
        r
    }

    /// Reads `key` of `scope` if it holds a value of type `kind`, without
    /// parsing a string. Reading an entry through a remapping rule makes the
    /// scope remember the entry.
    pub fn get_exact(&mut self, scope: usize, key: &str, kind: ValueKind) -> (r: Option<Value>)
        ensures
            // A scope that this blackboard does not have reads nothing.
            scope >= old(self).scope_count() ==> r is None && *final(self) == *old(self),
            scope < old(self).scope_count() ==> match old(self).read(scope as nat, key@) {
                Some(v) => if model_kind(v) == kind {
                    r is Some && r.unwrap()@ == v
                } else {
                    r is None
                },
                None => r is None,
            },
            final(self).same_structure(old(self)),
            final(self).same_resolution(old(self)),
            final(self).entry_count() == old(self).entry_count(),
            forall|e: nat| #[trigger] final(self).entry(e) == old(self).entry(e),
    {
        if scope >= self.num_scopes() {
            return None;
        }
        let mut b = self.take_board();
        let ghost pre = b;
        proof {
            pre.lemma_resolve_existing(scope as nat, key@);
        }
        proof {
            assert(pre.entries.len() == pre.entries@.len());
        }
        let found = b.get_entry(scope, key);
        let r = match found {
            Some(e) => {
                let current = &b.entries[e];
                if current.value_kind() == kind {
                    Some(current.copy())
                } else {
                    None
                }
            },
            None => None,
        };
        *self = Blackboard { board: b };
        r
    }

}

impl Blackboard {
    /// A key that a scope has no entry and no rule for, in a scope with
    /// auto-remapping, reads what the same key reads in the parent.
    pub proof fn lemma_auto_remapped_read(&self, s: nat, key: Seq<char>)
        requires
            s < self.scope_count(),
            self.parent(s) is Some,
            self.parent(s).unwrap() < s,
            !self.storage(s).contains_key(key),
            !self.remapping(s).contains_key(key),
            self.auto(s),
        ensures
            self.read(s, key) == self.read(self.parent(s).unwrap() as nat, key),
    {
    }

    /// A key with a remapping rule, that the scope has no entry for, reads
    /// what the key it is remapped to reads in the parent.
    pub proof fn lemma_remapped_read(&self, s: nat, key: Seq<char>)
        requires
            s < self.scope_count(),
            self.parent(s) is Some,
            self.parent(s).unwrap() < s,
            !self.storage(s).contains_key(key),
            self.remapping(s).contains_key(key),
        ensures
            self.read(s, key) == self.read(self.parent(s).unwrap() as nat, self.remapping(s)[key]@),
    {
    }

    /// A key with a remapping rule, that the scope has no entry for, leads
    /// to where the key it is remapped to leads in the parent. With
    /// [`Blackboard::set`], which writes every key that leads where the
    /// written key leads, a write at a parent's key is read back through the
    /// rule, and so through a chain of subtree remappings.
    pub proof fn lemma_remapped_resolution(&self, s: nat, key: Seq<char>)
        requires
            s < self.scope_count(),
            self.parent(s) is Some,
            self.parent(s).unwrap() < s,
            !self.storage(s).contains_key(key),
            self.remapping(s).contains_key(key),
        ensures
            self.resolve(s, key) == self.resolve(self.parent(s).unwrap() as nat, self.remapping(s)[key]@),
    {
    }

    /// A key that a scope has no entry and no rule for, in a scope with
    /// auto-remapping, leads to where the same key leads in the parent.
    pub proof fn lemma_auto_remapped_resolution(&self, s: nat, key: Seq<char>)
        requires
            s < self.scope_count(),
            self.parent(s) is Some,
            self.parent(s).unwrap() < s,
            !self.storage(s).contains_key(key),
            !self.remapping(s).contains_key(key),
            self.auto(s),
        ensures
            self.resolve(s, key) == self.resolve(self.parent(s).unwrap() as nat, key),
    {
    }

    /// A key that a scope has no entry, no rule and no auto-remapping for
    /// leads to a new entry of the scope itself.
    pub proof fn lemma_unmapped_resolution(&self, s: nat, key: Seq<char>)
        requires
            s < self.scope_count(),
            !self.storage(s).contains_key(key),
            !self.remapping(s).contains_key(key),
            !self.auto(s),
        ensures
            self.resolve(s, key) == Resolution::Create(s, key),
    {
    }

    /// The entries are numbered by `usize`.
    pub proof fn lemma_entry_count_fits(&self)
        ensures
            self.entry_count() <= usize::MAX,
    {
        assert(self.board.entries@.len() == self.board.entries.len());
    }

    /// A key that a scope has an entry for reads that entry.
    pub proof fn lemma_stored_read(&self, s: nat, key: Seq<char>)
        requires
            s < self.scope_count(),
            self.storage(s).contains_key(key),
        ensures
            self.read(s, key) == Some(self.entry(self.storage(s)[key] as nat)),
    {
    }

    /// A key that a scope has no entry, no rule and no auto-remapping for
    /// reads nothing, whatever its parent holds.
    pub proof fn lemma_unmapped_read(&self, s: nat, key: Seq<char>)
        requires
            s < self.scope_count(),
            !self.storage(s).contains_key(key),
            !self.remapping(s).contains_key(key),
            !self.auto(s),
        ensures
            self.read(s, key) is None,
    {
    }

    /// Reading a key twice as the same type gives the same value: a string
    /// that the first read parsed was replaced by the parsed value, which the
    /// second read finds.
    pub proof fn lemma_get_twice(b0: Blackboard, b1: Blackboard, s: nat, key: Seq<char>, kind: ValueKind)
        requires
            s < b0.scope_count(),
            b1.get_effect(&b0, s, key, kind),
        ensures
            b1.spec_get(s, key, kind) == b0.spec_get(s, key, kind),
    {
        match b0.read(s, key) {
            Some(v) => match spec_convert(v, kind) {
                Some(c) => {
                    lemma_convert_kind(v, kind);
                },
                None => {},
            },
            None => {},
        }
    }
}

/// What a conversion gives is of the type asked for.
pub proof fn lemma_convert_kind(v: ValueModel, kind: ValueKind)
    ensures
        spec_convert(v, kind) matches Some(c) ==> model_kind(c) == kind,
{
}

} // verus!
