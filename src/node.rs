//! The tree that parsing builds, and its mathematical model.

use vstd::prelude::*;
use crate::position::NodeContext;

verus! {

/// The value of a number literal: a 64-bit integer, or a decimal fraction
/// kept as the literal's own text (sign included), e.g. `-123.45`.
#[derive(Debug, Clone)]
pub enum Number {
    Integer(i64),
    Float(String),
}

/// The keyword `пусто`.
#[derive(Debug, Clone)]
pub struct EmptyNode {
    pub context: NodeContext,
}

/// The keyword `так` (true) or `ні` (false).
#[derive(Debug, Clone)]
pub struct LogicalNode {
    pub value: bool,
    pub context: NodeContext,
}

#[derive(Debug, Clone)]
pub struct NumberNode {
    pub value: Number,
    pub context: NodeContext,
}

/// A quoted text, or an identifier. Escape pairs are kept as written.
/// Two of them are equal when their texts are, wherever they stand.
#[derive(Debug, Clone)]
pub struct TextNode {
    pub value: String,
    pub context: NodeContext,
}

/// `[a, b, ...]`
#[derive(Debug)]
pub struct ListNode {
    pub entries: Vec<AstNode>,
    pub context: NodeContext,
}

/// `(key = value, ...)`
#[derive(Debug)]
pub struct DictionaryNode {
    pub entries: Vec<DictionaryEntryNode>,
    pub context: NodeContext,
}

/// A dictionary key: an identifier or a quoted text (both as `Text`), or a number.
#[derive(Debug, Clone)]
pub enum DictionaryEntryKey {
    Number(NumberNode),
    Text(TextNode),
}

/// `key = value` inside a dictionary; `context` is where the key starts.
#[derive(Debug)]
pub struct DictionaryEntryNode {
    pub key: DictionaryEntryKey,
    pub value: BoxedAstNode,
    pub context: NodeContext,
}

/// `Name(key = value, ...)`; the name's context is the object's own.
#[derive(Debug)]
pub struct ObjectNode {
    pub name: TextNode,
    pub entries: Vec<ObjectEntryNode>,
    pub context: NodeContext,
}

/// `key = value` inside an object; `context` is where the key starts.
#[derive(Debug)]
pub struct ObjectEntryNode {
    pub key: TextNode,
    pub value: BoxedAstNode,
    pub context: NodeContext,
}

/// A node held as the value of an entry.
#[derive(Debug)]
pub struct BoxedAstNode(pub AstNode);

/// One value of the notation.
#[derive(Debug)]
pub enum AstNode {
    Empty(EmptyNode),
    Logical(LogicalNode),
    Number(NumberNode),
    Text(TextNode),
    Object(ObjectNode),
    Dictionary(DictionaryNode),
    List(ListNode),
}

/// The tree under the notation's own name.
pub type Did = AstNode;

// ---------------------------------------------------------------------------
// The model.

/// Model of `Number`.
pub enum NumberValue {
    Integer(int),
    Float(Seq<char>),
}

/// Model of a dictionary key.
pub enum KeyValue {
    Number { value: NumberValue, context: NodeContext },
    Text { value: Seq<char>, context: NodeContext },
}

/// Model of a dictionary entry.
pub struct DictEntry {
    pub key: KeyValue,
    pub value: Tree,
    pub context: NodeContext,
}

/// Model of an object entry.
pub struct Field {
    pub key: Seq<char>,
    pub key_context: NodeContext,
    pub value: Tree,
    pub context: NodeContext,
}

/// Model of `AstNode`: the same tree over sequences.
pub enum Tree {
    Empty { context: NodeContext },
    Logical { value: bool, context: NodeContext },
    Number { value: NumberValue, context: NodeContext },
    Text { value: Seq<char>, context: NodeContext },
    List { entries: Seq<Tree>, context: NodeContext },
    Dictionary { entries: Seq<DictEntry>, context: NodeContext },
    Object { name: Seq<char>, name_context: NodeContext, entries: Seq<Field>, context: NodeContext },
}

impl Number {
    pub open spec fn view(&self) -> NumberValue {
        match self {
            Number::Integer(n) => NumberValue::Integer(*n as int),
            Number::Float(t) => NumberValue::Float(t@),
        }
    }
}

impl DictionaryEntryKey {
    pub open spec fn view(&self) -> KeyValue {
        match self {
            DictionaryEntryKey::Number(n) => KeyValue::Number { value: n.value@, context: n.context },
            DictionaryEntryKey::Text(t) => KeyValue::Text { value: t.value@, context: t.context },
        }
    }
}

impl DictionaryEntryNode {
    pub open spec fn view(&self) -> DictEntry
        decreases self,
    {
        DictEntry { key: self.key@, value: self.value.0.view(), context: self.context }
    }
}

impl ObjectEntryNode {
    pub open spec fn view(&self) -> Field
        decreases self,
    {
        Field {
            key: self.key.value@,
            key_context: self.key.context,
            value: self.value.0.view(),
            context: self.context,
        }
    }
}

impl AstNode {
    pub open spec fn view(&self) -> Tree
        decreases self,
    {
        match self {
            AstNode::Empty(n) => Tree::Empty { context: n.context },
            AstNode::Logical(n) => Tree::Logical { value: n.value, context: n.context },
            AstNode::Number(n) => Tree::Number { value: n.value@, context: n.context },
            AstNode::Text(n) => Tree::Text { value: n.value@, context: n.context },
            AstNode::List(n) => Tree::List {
                entries: Seq::new(
                    n.entries@.len(),
                    |i: int|
                        if 0 <= i < n.entries@.len() {
                            n.entries@[i].view()
                        } else {
                            Tree::Empty { context: n.context }
                        },
                ),
                context: n.context,
            },
            AstNode::Dictionary(n) => Tree::Dictionary {
                entries: Seq::new(
                    n.entries@.len(),
                    |i: int|
                        if 0 <= i < n.entries@.len() {
                            n.entries@[i].view()
                        } else {
                            DictEntry {
                                key: KeyValue::Text { value: Seq::empty(), context: n.context },
                                value: Tree::Empty { context: n.context },
                                context: n.context,
                            }
                        },
                ),
                context: n.context,
            },
            AstNode::Object(n) => Tree::Object {
                name: n.name.value@,
                name_context: n.name.context,
                entries: Seq::new(
                    n.entries@.len(),
                    |i: int|
                        if 0 <= i < n.entries@.len() {
                            n.entries@[i].view()
                        } else {
                            Field {
                                key: Seq::empty(),
                                key_context: n.context,
                                value: Tree::Empty { context: n.context },
                                context: n.context,
                            }
                        },
                ),
                context: n.context,
            },
        }
    }
}

/// The models of a run of nodes.
pub open spec fn trees(v: Seq<AstNode>) -> Seq<Tree> {
    Seq::new(v.len(), |k: int| v[k]@)
}

/// The models of a run of dictionary entries.
pub open spec fn dict_entries_of(v: Seq<DictionaryEntryNode>) -> Seq<DictEntry> {
    Seq::new(v.len(), |k: int| v[k]@)
}

/// The models of a run of object entries.
pub open spec fn fields_of(v: Seq<ObjectEntryNode>) -> Seq<Field> {
    Seq::new(v.len(), |k: int| v[k]@)
}

pub proof fn lemma_list_view(n: ListNode)
    ensures
        AstNode::List(n)@ == (Tree::List { entries: trees(n.entries@), context: n.context }),
{
    if let Tree::List { entries, .. } = AstNode::List(n)@ {
        assert(entries =~= trees(n.entries@));
    }
}

pub proof fn lemma_dictionary_view(n: DictionaryNode)
    ensures
        AstNode::Dictionary(n)@ == (Tree::Dictionary {
            entries: dict_entries_of(n.entries@),
            context: n.context,
        }),
{
    if let Tree::Dictionary { entries, .. } = AstNode::Dictionary(n)@ {
        assert(entries =~= dict_entries_of(n.entries@));
    }
}

pub proof fn lemma_object_view(n: ObjectNode)
    ensures
        AstNode::Object(n)@ == (Tree::Object {
            name: n.name.value@,
            name_context: n.name.context,
            entries: fields_of(n.entries@),
            context: n.context,
        }),
{
    if let Tree::Object { entries, .. } = AstNode::Object(n)@ {
        assert(entries =~= fields_of(n.entries@));
    }
}

impl AstNode {
    /// Whether this is an empty node.
    pub fn is_empty(&self) -> (r: bool)
        ensures
            r == self is Empty,
    {
        matches!(self, AstNode::Empty(_))
    }

    /// Whether this is a logical node.
    pub fn is_logical(&self) -> (r: bool)
        ensures
            r == self is Logical,
    {
        matches!(self, AstNode::Logical(_))
    }

    /// Whether this is a number node.
    pub fn is_number(&self) -> (r: bool)
        ensures
            r == self is Number,
    {
        matches!(self, AstNode::Number(_))
    }

    /// Whether this is a text node.
    pub fn is_text(&self) -> (r: bool)
        ensures
            r == self is Text,
    {
        matches!(self, AstNode::Text(_))
    }

    /// Whether this is an object node.
    pub fn is_object(&self) -> (r: bool)
        ensures
            r == self is Object,
    {
        matches!(self, AstNode::Object(_))
    }

    /// Whether this is a dictionary node.
    pub fn is_dictionary(&self) -> (r: bool)
        ensures
            r == self is Dictionary,
    {
        matches!(self, AstNode::Dictionary(_))
    }

    /// Whether this is a list node.
    pub fn is_list(&self) -> (r: bool)
        ensures
            r == self is List,
    {
        matches!(self, AstNode::List(_))
    }

    /// The EmptyNode inside; this must be an empty node.
    pub fn unwrap_empty(self) -> (r: EmptyNode)
        requires
            self is Empty,
        ensures
            self == AstNode::Empty(r),
    {
        match self {
            AstNode::Empty(node) => node,
            _ => unreached(),
        }
    }

    /// The LogicalNode inside; this must be a logical node.
    pub fn unwrap_logical(self) -> (r: LogicalNode)
        requires
            self is Logical,
        ensures
            self == AstNode::Logical(r),
    {
        match self {
            AstNode::Logical(node) => node,
            _ => unreached(),
        }
    }

    /// The NumberNode inside; this must be a number node.
    pub fn unwrap_number(self) -> (r: NumberNode)
        requires
            self is Number,
        ensures
            self == AstNode::Number(r),
    {
        match self {
            AstNode::Number(node) => node,
            _ => unreached(),
        }
    }

    /// The TextNode inside; this must be a text node.
    pub fn unwrap_text(self) -> (r: TextNode)
        requires
            self is Text,
        ensures
            self == AstNode::Text(r),
    {
        match self {
            AstNode::Text(node) => node,
            _ => unreached(),
        }
    }

    /// The ObjectNode inside; this must be an object node.
    pub fn unwrap_object(self) -> (r: ObjectNode)
        requires
            self is Object,
        ensures
            self == AstNode::Object(r),
    {
        match self {
            AstNode::Object(node) => node,
            _ => unreached(),
        }
    }

    /// The DictionaryNode inside; this must be a dictionary node.
    pub fn unwrap_dictionary(self) -> (r: DictionaryNode)
        requires
            self is Dictionary,
        ensures
            self == AstNode::Dictionary(r),
    {
        match self {
            AstNode::Dictionary(node) => node,
            _ => unreached(),
        }
    }

    /// The ListNode inside; this must be a list node.
    pub fn unwrap_list(self) -> (r: ListNode)
        requires
            self is List,
        ensures
            self == AstNode::List(r),
    {
        match self {
            AstNode::List(node) => node,
            _ => unreached(),
        }
    }
}

impl PartialEq for TextNode {
    fn eq(&self, other: &TextNode) -> (r: bool) {
        self.value == other.value
    }
}

impl vstd::std_specs::cmp::PartialEqSpecImpl for TextNode {
    open spec fn obeys_eq_spec() -> bool {
        true
    }

    open spec fn eq_spec(&self, other: &TextNode) -> bool {
        self.value@ == other.value@
    }
}

} // verus!
