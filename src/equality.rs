//! Equality of trees that ignores where their nodes stand.

use vstd::prelude::*;
use crate::node::{
    dict_entries_of, fields_of, lemma_dictionary_view, lemma_list_view, lemma_object_view, trees,
    AstNode, DictEntry, DictionaryEntryKey, DictionaryEntryNode, DictionaryNode, Field, KeyValue,
    EmptyNode, ListNode, LogicalNode, Number, NumberNode, ObjectEntryNode, ObjectNode, Tree,
};
use crate::position::NodeContext;

verus! {

/// The place that stands in for every place once places are ignored.
pub open spec fn nowhere() -> NodeContext {
    NodeContext { line: 0, column: 0, index: 0 }
}

pub open spec fn erase_key(k: KeyValue) -> KeyValue {
    match k {
        KeyValue::Number { value, .. } => KeyValue::Number { value, context: nowhere() },
        KeyValue::Text { value, .. } => KeyValue::Text { value, context: nowhere() },
    }
}

/// `t` with every place in it replaced by `nowhere()`.
pub open spec fn erase(t: Tree) -> Tree
    decreases t,
{
    match t {
        Tree::Empty { .. } => Tree::Empty { context: nowhere() },
        Tree::Logical { value, .. } => Tree::Logical { value, context: nowhere() },
        Tree::Number { value, .. } => Tree::Number { value, context: nowhere() },
        Tree::Text { value, .. } => Tree::Text { value, context: nowhere() },
        Tree::List { entries, .. } => Tree::List {
            entries: Seq::new(
                entries.len(),
                |k: int| if 0 <= k < entries.len() { erase(entries[k]) } else { t },
            ),
            context: nowhere(),
        },
        Tree::Dictionary { entries, .. } => Tree::Dictionary {
            entries: Seq::new(
                entries.len(),
                |k: int|
                    if 0 <= k < entries.len() {
                        DictEntry {
                            key: erase_key(entries[k].key),
                            value: erase(entries[k].value),
                            context: nowhere(),
                        }
                    } else {
                        DictEntry { key: erase_key(entries[0].key), value: t, context: nowhere() }
                    },
            ),
            context: nowhere(),
        },
        Tree::Object { name, entries, .. } => Tree::Object {
            name,
            name_context: nowhere(),
            entries: Seq::new(
                entries.len(),
                |k: int|
                    if 0 <= k < entries.len() {
                        Field {
                            key: entries[k].key,
                            key_context: nowhere(),
                            value: erase(entries[k].value),
                            context: nowhere(),
                        }
                    } else {
                        Field { key: name, key_context: nowhere(), value: t, context: nowhere() }
                    },
            ),
            context: nowhere(),
        },
    }
}

pub open spec fn erased_trees(v: Seq<AstNode>) -> Seq<Tree> {
    Seq::new(v.len(), |k: int| erase(v[k]@))
}

pub open spec fn erased_dict(v: Seq<DictionaryEntryNode>) -> Seq<DictEntry> {
    Seq::new(
        v.len(),
        |k: int| DictEntry { key: erase_key(v[k]@.key), value: erase(v[k]@.value), context: nowhere() },
    )
}

pub open spec fn erased_fields(v: Seq<ObjectEntryNode>) -> Seq<Field> {
    Seq::new(
        v.len(),
        |k: int| Field { key: v[k]@.key, key_context: nowhere(), value: erase(v[k]@.value), context: nowhere() },
    )
}

pub proof fn lemma_erase_list(x: ListNode)
    ensures
        erase(AstNode::List(x)@) == (Tree::List { entries: erased_trees(x.entries@), context: nowhere() }),
{
    lemma_list_view(x);
    let t = Tree::List { entries: trees(x.entries@), context: x.context };
    assert(erase(t)->List_entries =~= erased_trees(x.entries@));
}

pub proof fn lemma_erase_dictionary(x: DictionaryNode)
    ensures
        erase(AstNode::Dictionary(x)@) == (Tree::Dictionary { entries: erased_dict(x.entries@), context: nowhere() }),
{
    lemma_dictionary_view(x);
    let t = Tree::Dictionary { entries: dict_entries_of(x.entries@), context: x.context };
    assert(erase(t)->Dictionary_entries =~= erased_dict(x.entries@));
}

pub proof fn lemma_erase_object(x: ObjectNode)
    ensures
        erase(AstNode::Object(x)@) == (Tree::Object {
            name: x.name.value@,
            name_context: nowhere(),
            entries: erased_fields(x.entries@),
            context: nowhere(),
        }),
{
    lemma_object_view(x);
    let t = Tree::Object {
        name: x.name.value@,
        name_context: x.name.context,
        entries: fields_of(x.entries@),
        context: x.context,
    };
    assert(erase(t)->Object_entries =~= erased_fields(x.entries@));
}

/// Comparison that ignores where things stand.
pub trait EqIgnoreContext {
    /// `self` and `other` are equal once places are ignored.
    spec fn same_shape(&self, other: &Self) -> bool;

    fn eq_ignore_context(&self, other: &Self) -> (r: bool)
        ensures
            r == self.same_shape(other),
    ;

    fn ne_ignore_context(&self, other: &Self) -> (r: bool)
        ensures
            r == !self.same_shape(other),
    {
        !self.eq_ignore_context(other)
    }
}

pub fn same_number(a: &Number, b: &Number) -> (r: bool)
    ensures
        r == (a@ == b@),
{
    match (a, b) {
        (Number::Integer(x), Number::Integer(y)) => *x == *y,
        (Number::Float(x), Number::Float(y)) => *x == *y,
        _ => false,
    }
}

pub fn same_key(a: &DictionaryEntryKey, b: &DictionaryEntryKey) -> (r: bool)
    ensures
        r == (erase_key(a@) == erase_key(b@)),
{
    match (a, b) {
        (DictionaryEntryKey::Number(x), DictionaryEntryKey::Number(y)) => same_number(&x.value, &y.value),
        (DictionaryEntryKey::Text(x), DictionaryEntryKey::Text(y)) => x.value == y.value,
        _ => false,
    }
}

/// Whether `a` and `b` are the same tree once places are ignored.
pub fn same_tree(a: &AstNode, b: &AstNode) -> (r: bool)
    ensures
        r == (erase(a@) == erase(b@)),
    decreases a,
{
    match (a, b) {
        (AstNode::Empty(_), AstNode::Empty(_)) => true,
        (AstNode::Logical(x), AstNode::Logical(y)) => x.value == y.value,
        (AstNode::Number(x), AstNode::Number(y)) => same_number(&x.value, &y.value),
        (AstNode::Text(x), AstNode::Text(y)) => x.value == y.value,
        (AstNode::List(x), AstNode::List(y)) => {
            proof {
                assert(decreases_to!(*a => a->List_0));
            }
            same_list(x, y)
        },
        (AstNode::Dictionary(x), AstNode::Dictionary(y)) => {
            proof {
                assert(decreases_to!(*a => a->Dictionary_0));
            }
            same_dictionary(x, y)
        },
        (AstNode::Object(x), AstNode::Object(y)) => {
            proof {
                assert(decreases_to!(*a => a->Object_0));
            }
            same_object(x, y)
        },
        _ => false,
    }
}

/// Whether two lists are the same once places are ignored.
pub fn same_list(x: &ListNode, y: &ListNode) -> (r: bool)
    ensures
        r == (erase(AstNode::List(*x)@) == erase(AstNode::List(*y)@)),
    decreases x,
{
    proof {
        lemma_erase_list(*x);
        lemma_erase_list(*y);
    }
    if x.entries.len() != y.entries.len() {
        proof {
            assert(erased_trees(x.entries@).len() != erased_trees(y.entries@).len());
        }
        return false;
    }
    let mut k: usize = 0;
    while k < x.entries.len()
        invariant
            x.entries@.len() == y.entries@.len(),
            k <= x.entries@.len(),
            forall|j: int| 0 <= j < k ==> erase(#[trigger] x.entries@[j]@) == erase(y.entries@[j]@),
        decreases x.entries@.len() - k,
    {
        proof {
            assert(decreases_to!(*x => x.entries));
            assert(decreases_to!(x.entries => x.entries@));
            assert(decreases_to!(x.entries@ => x.entries@[k as int]));
        }
        if !same_tree(&x.entries[k], &y.entries[k]) {
            proof {
                lemma_erase_list(*x);
                lemma_erase_list(*y);
                assert(erased_trees(x.entries@)[k as int] != erased_trees(y.entries@)[k as int]);
            }
            return false;
        }
        k = k + 1;
    }
    proof {
        assert(erased_trees(x.entries@) =~= erased_trees(y.entries@));
    }
    true
}

/// Whether two dictionary entries are the same once places are ignored.
pub fn same_dict_entry(e: &DictionaryEntryNode, f: &DictionaryEntryNode) -> (r: bool)
    ensures
        r == (erase_key(e@.key) == erase_key(f@.key) && erase(e@.value) == erase(f@.value)),
    decreases e,
{
    proof {
        assert(decreases_to!(*e => e.value));
        assert(decreases_to!(e.value => e.value.0));
    }
    same_key(&e.key, &f.key) && same_tree(&e.value.0, &f.value.0)
}

/// Whether two dictionaries are the same once places are ignored.
pub fn same_dictionary(x: &DictionaryNode, y: &DictionaryNode) -> (r: bool)
    ensures
        r == (erase(AstNode::Dictionary(*x)@) == erase(AstNode::Dictionary(*y)@)),
    decreases x,
{
    proof {
        lemma_erase_dictionary(*x);
        lemma_erase_dictionary(*y);
    }
    if x.entries.len() != y.entries.len() {
        proof {
            assert(erased_dict(x.entries@).len() != erased_dict(y.entries@).len());
        }
        return false;
    }
    let mut k: usize = 0;
    while k < x.entries.len()
        invariant
            x.entries@.len() == y.entries@.len(),
            k <= x.entries@.len(),
            forall|j: int| 0 <= j < k ==> erase_key(#[trigger] x.entries@[j]@.key) == erase_key(y.entries@[j]@.key)
                && erase(x.entries@[j]@.value) == erase(y.entries@[j]@.value),
        decreases x.entries@.len() - k,
    {
        proof {
            assert(decreases_to!(*x => x.entries));
            assert(decreases_to!(x.entries => x.entries@));
            assert(decreases_to!(x.entries@ => x.entries@[k as int]));
        }
        if !same_dict_entry(&x.entries[k], &y.entries[k]) {
            proof {
                lemma_erase_dictionary(*x);
                lemma_erase_dictionary(*y);
                assert(erased_dict(x.entries@)[k as int] != erased_dict(y.entries@)[k as int]);
            }
            return false;
        }
        k = k + 1;
    }
    proof {
        assert(erased_dict(x.entries@) =~= erased_dict(y.entries@));
    }
    true
}

/// Whether two object entries are the same once places are ignored.
pub fn same_obj_entry(e: &ObjectEntryNode, f: &ObjectEntryNode) -> (r: bool)
    ensures
        r == (e@.key == f@.key && erase(e@.value) == erase(f@.value)),
    decreases e,
{
    proof {
        assert(decreases_to!(*e => e.value));
        assert(decreases_to!(e.value => e.value.0));
    }
    e.key.value == f.key.value && same_tree(&e.value.0, &f.value.0)
}

/// Whether two objects are the same once places are ignored.
pub fn same_object(x: &ObjectNode, y: &ObjectNode) -> (r: bool)
    ensures
        r == (erase(AstNode::Object(*x)@) == erase(AstNode::Object(*y)@)),
    decreases x,
{
    proof {
        lemma_erase_object(*x);
        lemma_erase_object(*y);
    }
    if x.name.value != y.name.value || x.entries.len() != y.entries.len() {
        proof {
            assert(x.name.value@ != y.name.value@ || erased_fields(x.entries@).len() != erased_fields(y.entries@).len());
        }
        return false;
    }
    let mut k: usize = 0;
    while k < x.entries.len()
        invariant
            x.entries@.len() == y.entries@.len(),
            x.name.value@ == y.name.value@,
            k <= x.entries@.len(),
            forall|j: int| 0 <= j < k ==> (#[trigger] x.entries@[j]@).key == y.entries@[j]@.key
                && erase(x.entries@[j]@.value) == erase(y.entries@[j]@.value),
        decreases x.entries@.len() - k,
    {
        proof {
            assert(decreases_to!(*x => x.entries));
            assert(decreases_to!(x.entries => x.entries@));
            assert(decreases_to!(x.entries@ => x.entries@[k as int]));
        }
        if !same_obj_entry(&x.entries[k], &y.entries[k]) {
            proof {
                lemma_erase_object(*x);
                lemma_erase_object(*y);
                assert(erased_fields(x.entries@)[k as int] != erased_fields(y.entries@)[k as int]);
            }
            return false;
        }
        k = k + 1;
    }
    proof {
        assert(erased_fields(x.entries@) =~= erased_fields(y.entries@));
    }
    true
}

impl EqIgnoreContext for AstNode {
    open spec fn same_shape(&self, other: &Self) -> bool {
        erase(self@) == erase(other@)
    }

    fn eq_ignore_context(&self, other: &Self) -> (r: bool) {
        same_tree(self, other)
    }
}

/// Trees are equal when they are the same once places are ignored.
impl PartialEq for AstNode {
    fn eq(&self, other: &AstNode) -> (r: bool) {
        same_tree(self, other)
    }
}

impl vstd::std_specs::cmp::PartialEqSpecImpl for AstNode {
    open spec fn obeys_eq_spec() -> bool {
        true
    }

    open spec fn eq_spec(&self, other: &AstNode) -> bool {
        erase(self@) == erase(other@)
    }
}

/// Every empty node equals every other.
impl PartialEq for EmptyNode {
    fn eq(&self, other: &EmptyNode) -> (r: bool) {
        true
    }
}

impl vstd::std_specs::cmp::PartialEqSpecImpl for EmptyNode {
    open spec fn obeys_eq_spec() -> bool {
        true
    }

    open spec fn eq_spec(&self, other: &EmptyNode) -> bool {
        true
    }
}

/// Logical nodes are equal when their values are.
impl PartialEq for LogicalNode {
    fn eq(&self, other: &LogicalNode) -> (r: bool) {
        self.value == other.value
    }
}

impl vstd::std_specs::cmp::PartialEqSpecImpl for LogicalNode {
    open spec fn obeys_eq_spec() -> bool {
        true
    }

    open spec fn eq_spec(&self, other: &LogicalNode) -> bool {
        self.value == other.value
    }
}

/// Numbers are equal when their models are: the same integer, or the same decimal text.
impl PartialEq for Number {
    fn eq(&self, other: &Number) -> (r: bool) {
        same_number(self, other)
    }
}

impl vstd::std_specs::cmp::PartialEqSpecImpl for Number {
    open spec fn obeys_eq_spec() -> bool {
        true
    }

    open spec fn eq_spec(&self, other: &Number) -> bool {
        self@ == other@
    }
}

/// Number nodes are equal when their numbers are, wherever they stand.
impl PartialEq for NumberNode {
    fn eq(&self, other: &NumberNode) -> (r: bool) {
        same_number(&self.value, &other.value)
    }
}

impl vstd::std_specs::cmp::PartialEqSpecImpl for NumberNode {
    open spec fn obeys_eq_spec() -> bool {
        true
    }

    open spec fn eq_spec(&self, other: &NumberNode) -> bool {
        self.value@ == other.value@
    }
}

/// Keys are equal when they are of one kind and value, wherever they stand.
impl PartialEq for DictionaryEntryKey {
    fn eq(&self, other: &DictionaryEntryKey) -> (r: bool) {
        same_key(self, other)
    }
}

impl vstd::std_specs::cmp::PartialEqSpecImpl for DictionaryEntryKey {
    open spec fn obeys_eq_spec() -> bool {
        true
    }

    open spec fn eq_spec(&self, other: &DictionaryEntryKey) -> bool {
        erase_key(self@) == erase_key(other@)
    }
}

/// Lists are equal when their entries are, places aside.
impl PartialEq for ListNode {
    fn eq(&self, other: &ListNode) -> (r: bool) {
        same_list(self, other)
    }
}

impl vstd::std_specs::cmp::PartialEqSpecImpl for ListNode {
    open spec fn obeys_eq_spec() -> bool {
        true
    }

    open spec fn eq_spec(&self, other: &ListNode) -> bool {
        erase(AstNode::List(*self)@) == erase(AstNode::List(*other)@)
    }
}

/// Dictionaries are equal when their entries are, places aside.
impl PartialEq for DictionaryNode {
    fn eq(&self, other: &DictionaryNode) -> (r: bool) {
        same_dictionary(self, other)
    }
}

impl vstd::std_specs::cmp::PartialEqSpecImpl for DictionaryNode {
    open spec fn obeys_eq_spec() -> bool {
        true
    }

    open spec fn eq_spec(&self, other: &DictionaryNode) -> bool {
        erase(AstNode::Dictionary(*self)@) == erase(AstNode::Dictionary(*other)@)
    }
}

/// Dictionary entries are equal when their keys and values are, places aside.
impl PartialEq for DictionaryEntryNode {
    fn eq(&self, other: &DictionaryEntryNode) -> (r: bool) {
        same_dict_entry(self, other)
    }
}

impl vstd::std_specs::cmp::PartialEqSpecImpl for DictionaryEntryNode {
    open spec fn obeys_eq_spec() -> bool {
        true
    }

    open spec fn eq_spec(&self, other: &DictionaryEntryNode) -> bool {
        erase_key(self@.key) == erase_key(other@.key) && erase(self@.value) == erase(other@.value)
    }
}

/// Objects are equal when their names and entries are, places aside.
impl PartialEq for ObjectNode {
    fn eq(&self, other: &ObjectNode) -> (r: bool) {
        same_object(self, other)
    }
}

impl vstd::std_specs::cmp::PartialEqSpecImpl for ObjectNode {
    open spec fn obeys_eq_spec() -> bool {
        true
    }

    open spec fn eq_spec(&self, other: &ObjectNode) -> bool {
        erase(AstNode::Object(*self)@) == erase(AstNode::Object(*other)@)
    }
}

/// Object entries are equal when their keys and values are, places aside.
impl PartialEq for ObjectEntryNode {
    fn eq(&self, other: &ObjectEntryNode) -> (r: bool) {
        same_obj_entry(self, other)
    }
}

impl vstd::std_specs::cmp::PartialEqSpecImpl for ObjectEntryNode {
    open spec fn obeys_eq_spec() -> bool {
        true
    }

    open spec fn eq_spec(&self, other: &ObjectEntryNode) -> bool {
        self@.key == other@.key && erase(self@.value) == erase(other@.value)
    }
}

} // verus!
