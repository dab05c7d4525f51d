//! Deep copies of trees.

use vstd::prelude::*;
use crate::node::{
    dict_entries_of, fields_of, lemma_dictionary_view, lemma_list_view, lemma_object_view, trees,
    AstNode, BoxedAstNode, DictionaryEntryKey, DictionaryEntryNode, DictionaryNode, ListNode,
    Number, NumberNode, ObjectEntryNode, ObjectNode, TextNode,
};

verus! {

fn clone_number(n: &Number) -> (r: Number)
    ensures
        r@ == n@,
{
    match n {
        Number::Integer(v) => Number::Integer(*v),
        Number::Float(t) => Number::Float(t.clone()),
    }
}

fn clone_text(t: &TextNode) -> (r: TextNode)
    ensures
        r.value@ == t.value@,
        r.context == t.context,
{
    TextNode { value: t.value.clone(), context: t.context }
}

fn clone_key(k: &DictionaryEntryKey) -> (r: DictionaryEntryKey)
    ensures
        r@ == k@,
{
    match k {
        DictionaryEntryKey::Number(n) => DictionaryEntryKey::Number(
            NumberNode { value: clone_number(&n.value), context: n.context },
        ),
        DictionaryEntryKey::Text(t) => DictionaryEntryKey::Text(clone_text(t)),
    }
}

/// A copy of `a` with the same model.
pub fn clone_tree(a: &AstNode) -> (r: AstNode)
    ensures
        r@ == a@,
    decreases a,
{
    match a {
        AstNode::Empty(n) => AstNode::Empty(crate::node::EmptyNode { context: n.context }),
        AstNode::Logical(n) => AstNode::Logical(crate::node::LogicalNode { value: n.value, context: n.context }),
        AstNode::Number(n) => AstNode::Number(NumberNode { value: clone_number(&n.value), context: n.context }),
        AstNode::Text(n) => AstNode::Text(clone_text(n)),
        AstNode::List(x) => {
            proof {
                assert(decreases_to!(*a => a->List_0));
            }
            let c = clone_list(x);
            proof {
                lemma_list_view(*x);
                lemma_list_view(c);
            }
            AstNode::List(c)
        },
        AstNode::Dictionary(x) => {
            proof {
                assert(decreases_to!(*a => a->Dictionary_0));
            }
            let c = clone_dictionary(x);
            proof {
                lemma_dictionary_view(*x);
                lemma_dictionary_view(c);
            }
            AstNode::Dictionary(c)
        },
        AstNode::Object(x) => {
            proof {
                assert(decreases_to!(*a => a->Object_0));
            }
            let c = clone_object(x);
            proof {
                lemma_object_view(*x);
                lemma_object_view(c);
            }
            AstNode::Object(c)
        },
    }
}

fn clone_list(x: &ListNode) -> (r: ListNode)
    ensures
        trees(r.entries@) == trees(x.entries@),
        r.context == x.context,
    decreases x,
{
    let mut v: Vec<AstNode> = Vec::new();
    let mut k: usize = 0;
    while k < x.entries.len()
        invariant
            k <= x.entries@.len(),
            v@.len() == k,
            forall|j: int| 0 <= j < k ==> (#[trigger] v@[j])@ == x.entries@[j]@,
        decreases x.entries@.len() - k,
    {
        proof {
            assert(decreases_to!(*x => x.entries));
            assert(decreases_to!(x.entries => x.entries@));
            assert(decreases_to!(x.entries@ => x.entries@[k as int]));
        }
        v.push(clone_tree(&x.entries[k]));
        k = k + 1;
    }
    assert(trees(v@) =~= trees(x.entries@));
    ListNode { entries: v, context: x.context }
}

fn clone_dict_entry(e: &DictionaryEntryNode) -> (r: DictionaryEntryNode)
    ensures
        r@ == e@,
    decreases e,
{
    proof {
        assert(decreases_to!(*e => e.value));
        assert(decreases_to!(e.value => e.value.0));
    }
    DictionaryEntryNode {
        key: clone_key(&e.key),
        value: BoxedAstNode(clone_tree(&e.value.0)),
        context: e.context,
    }
}

fn clone_dictionary(x: &DictionaryNode) -> (r: DictionaryNode)
    ensures
        dict_entries_of(r.entries@) == dict_entries_of(x.entries@),
        r.context == x.context,
    decreases x,
{
    let mut v: Vec<DictionaryEntryNode> = Vec::new();
    let mut k: usize = 0;
    while k < x.entries.len()
        invariant
            k <= x.entries@.len(),
            v@.len() == k,
            forall|j: int| 0 <= j < k ==> (#[trigger] v@[j])@ == x.entries@[j]@,
        decreases x.entries@.len() - k,
    {
        proof {
            assert(decreases_to!(*x => x.entries));
            assert(decreases_to!(x.entries => x.entries@));
            assert(decreases_to!(x.entries@ => x.entries@[k as int]));
        }
        v.push(clone_dict_entry(&x.entries[k]));
        k = k + 1;
    }
    assert(dict_entries_of(v@) =~= dict_entries_of(x.entries@));
    DictionaryNode { entries: v, context: x.context }
}

fn clone_obj_entry(e: &ObjectEntryNode) -> (r: ObjectEntryNode)
    ensures
        r@ == e@,
    decreases e,
{
    proof {
        assert(decreases_to!(*e => e.value));
        assert(decreases_to!(e.value => e.value.0));
    }
    ObjectEntryNode {
        key: clone_text(&e.key),
        value: BoxedAstNode(clone_tree(&e.value.0)),
        context: e.context,
    }
}

fn clone_object(x: &ObjectNode) -> (r: ObjectNode)
    ensures
        fields_of(r.entries@) == fields_of(x.entries@),
        r.name.value@ == x.name.value@,
        r.name.context == x.name.context,
        r.context == x.context,
    decreases x,
{
    let mut v: Vec<ObjectEntryNode> = Vec::new();
    let mut k: usize = 0;
    while k < x.entries.len()
        invariant
            k <= x.entries@.len(),
            v@.len() == k,
            forall|j: int| 0 <= j < k ==> (#[trigger] v@[j])@ == x.entries@[j]@,
        decreases x.entries@.len() - k,
    {
        proof {
            assert(decreases_to!(*x => x.entries));
            assert(decreases_to!(x.entries => x.entries@));
            assert(decreases_to!(x.entries@ => x.entries@[k as int]));
        }
        v.push(clone_obj_entry(&x.entries[k]));
        k = k + 1;
    }
    assert(fields_of(v@) =~= fields_of(x.entries@));
    ObjectNode { name: clone_text(&x.name), entries: v, context: x.context }
}

impl BoxedAstNode {
    /// A copy of the node held.
    pub fn get(&self) -> (r: AstNode)
        ensures
            r@ == self.0@,
    {
        clone_tree(&self.0)
    }
}

impl Clone for AstNode {
    fn clone(&self) -> Self {
        clone_tree(self)
    }
}

impl Clone for BoxedAstNode {
    fn clone(&self) -> Self {
        BoxedAstNode(clone_tree(&self.0))
    }
}

impl Clone for ListNode {
    fn clone(&self) -> Self {
        clone_list(self)
    }
}

impl Clone for DictionaryNode {
    fn clone(&self) -> Self {
        clone_dictionary(self)
    }
}

impl Clone for DictionaryEntryNode {
    fn clone(&self) -> Self {
        clone_dict_entry(self)
    }
}

impl Clone for ObjectNode {
    fn clone(&self) -> Self {
        clone_object(self)
    }
}

impl Clone for ObjectEntryNode {
    fn clone(&self) -> Self {
        clone_obj_entry(self)
    }
}

} // verus!
