//! Conversions into nodes, and negation of numbers.

use vstd::prelude::*;
use crate::chars::{string_of, to_chars};
use crate::node::{
    AstNode, BoxedAstNode, DictionaryNode, EmptyNode, ListNode, LogicalNode, Number, NumberNode,
    NumberValue, ObjectNode, TextNode,
};

verus! {

/// The negation of a number: the integer with its sign turned, or the
/// decimal text with its leading `-` taken away or put in front.
pub open spec fn negate(v: NumberValue) -> NumberValue {
    match v {
        NumberValue::Integer(n) => NumberValue::Integer(-n),
        NumberValue::Float(t) => if t.len() > 0 && t[0] == '-' {
            NumberValue::Float(t.drop_first())
        } else {
            NumberValue::Float(seq!['-'] + t)
        },
    }
}

/// Numbers that can be negated: all but the least `i64`.
pub open spec fn negatable(n: Number) -> bool {
    !(n matches Number::Integer(v) && v == i64::MIN)
}

impl Number {
    /// This number with its sign turned.
    pub fn negated(&self) -> (r: Number)
        requires
            negatable(*self),
        ensures
            r@ == negate(self@),
    {
        match self {
            Number::Integer(v) => Number::Integer(-*v),
            Number::Float(t) => {
                let cs = to_chars(t.as_str());
                if cs.len() > 0 && cs[0] == '-' {
                    let r = string_of(&cs, 1, cs.len());
                    assert(cs@.subrange(1, cs@.len() as int) =~= t@.drop_first());
                    Number::Float(r)
                } else {
                    let minus = String::from_str("-");
                    proof {
                        reveal_strlit("-");
                    }
                    let r = minus.concat(t.as_str());
                    assert(r@ =~= seq!['-'] + t@);
                    Number::Float(r)
                }
            },
        }
    }
}

impl core::ops::Neg for Number {
    type Output = Number;

    fn neg(self) -> Number {
        self.negated()
    }
}

impl vstd::std_specs::ops::NegSpecImpl for Number {
    open spec fn obeys_neg_spec() -> bool {
        false
    }

    open spec fn neg_req(self) -> bool {
        negatable(self)
    }

    open spec fn neg_spec(self) -> Number {
        self
    }
}

impl NumberNode {
    /// This node with its number's sign turned, at the same place.
    pub fn negated(&self) -> (r: NumberNode)
        requires
            negatable(self.value),
        ensures
            r.value@ == negate(self.value@),
            r.context == self.context,
    {
        NumberNode { value: self.value.negated(), context: self.context }
    }
}

impl core::ops::Neg for NumberNode {
    type Output = NumberNode;

    fn neg(self) -> NumberNode {
        self.negated()
    }
}

impl vstd::std_specs::ops::NegSpecImpl for NumberNode {
    open spec fn obeys_neg_spec() -> bool {
        false
    }

    open spec fn neg_req(self) -> bool {
        negatable(self.value)
    }

    open spec fn neg_spec(self) -> NumberNode {
        self
    }
}

impl From<EmptyNode> for AstNode {
    fn from(value: EmptyNode) -> AstNode {
        AstNode::Empty(value)
    }
}

impl vstd::std_specs::convert::FromSpecImpl<EmptyNode> for AstNode {
    open spec fn obeys_from_spec() -> bool {
        true
    }

    open spec fn from_spec(value: EmptyNode) -> AstNode {
        AstNode::Empty(value)
    }
}

impl From<EmptyNode> for BoxedAstNode {
    fn from(value: EmptyNode) -> BoxedAstNode {
        BoxedAstNode(AstNode::Empty(value))
    }
}

impl vstd::std_specs::convert::FromSpecImpl<EmptyNode> for BoxedAstNode {
    open spec fn obeys_from_spec() -> bool {
        true
    }

    open spec fn from_spec(value: EmptyNode) -> BoxedAstNode {
        BoxedAstNode(AstNode::Empty(value))
    }
}

impl From<LogicalNode> for AstNode {
    fn from(value: LogicalNode) -> AstNode {
        AstNode::Logical(value)
    }
}

impl vstd::std_specs::convert::FromSpecImpl<LogicalNode> for AstNode {
    open spec fn obeys_from_spec() -> bool {
        true
    }

    open spec fn from_spec(value: LogicalNode) -> AstNode {
        AstNode::Logical(value)
    }
}

impl From<LogicalNode> for BoxedAstNode {
    fn from(value: LogicalNode) -> BoxedAstNode {
        BoxedAstNode(AstNode::Logical(value))
    }
}

impl vstd::std_specs::convert::FromSpecImpl<LogicalNode> for BoxedAstNode {
    open spec fn obeys_from_spec() -> bool {
        true
    }

    open spec fn from_spec(value: LogicalNode) -> BoxedAstNode {
        BoxedAstNode(AstNode::Logical(value))
    }
}

impl From<NumberNode> for AstNode {
    fn from(value: NumberNode) -> AstNode {
        AstNode::Number(value)
    }
}

impl vstd::std_specs::convert::FromSpecImpl<NumberNode> for AstNode {
    open spec fn obeys_from_spec() -> bool {
        true
    }

    open spec fn from_spec(value: NumberNode) -> AstNode {
        AstNode::Number(value)
    }
}

impl From<NumberNode> for BoxedAstNode {
    fn from(value: NumberNode) -> BoxedAstNode {
        BoxedAstNode(AstNode::Number(value))
    }
}

impl vstd::std_specs::convert::FromSpecImpl<NumberNode> for BoxedAstNode {
    open spec fn obeys_from_spec() -> bool {
        true
    }

    open spec fn from_spec(value: NumberNode) -> BoxedAstNode {
        BoxedAstNode(AstNode::Number(value))
    }
}

impl From<TextNode> for AstNode {
    fn from(value: TextNode) -> AstNode {
        AstNode::Text(value)
    }
}

impl vstd::std_specs::convert::FromSpecImpl<TextNode> for AstNode {
    open spec fn obeys_from_spec() -> bool {
        true
    }

    open spec fn from_spec(value: TextNode) -> AstNode {
        AstNode::Text(value)
    }
}

impl From<TextNode> for BoxedAstNode {
    fn from(value: TextNode) -> BoxedAstNode {
        BoxedAstNode(AstNode::Text(value))
    }
}

impl vstd::std_specs::convert::FromSpecImpl<TextNode> for BoxedAstNode {
    open spec fn obeys_from_spec() -> bool {
        true
    }

    open spec fn from_spec(value: TextNode) -> BoxedAstNode {
        BoxedAstNode(AstNode::Text(value))
    }
}

impl From<ObjectNode> for AstNode {
    fn from(value: ObjectNode) -> AstNode {
        AstNode::Object(value)
    }
}

impl vstd::std_specs::convert::FromSpecImpl<ObjectNode> for AstNode {
    open spec fn obeys_from_spec() -> bool {
        true
    }

    open spec fn from_spec(value: ObjectNode) -> AstNode {
        AstNode::Object(value)
    }
}

impl From<ObjectNode> for BoxedAstNode {
    fn from(value: ObjectNode) -> BoxedAstNode {
        BoxedAstNode(AstNode::Object(value))
    }
}

impl vstd::std_specs::convert::FromSpecImpl<ObjectNode> for BoxedAstNode {
    open spec fn obeys_from_spec() -> bool {
        true
    }

    open spec fn from_spec(value: ObjectNode) -> BoxedAstNode {
        BoxedAstNode(AstNode::Object(value))
    }
}

impl From<DictionaryNode> for AstNode {
    fn from(value: DictionaryNode) -> AstNode {
        AstNode::Dictionary(value)
    }
}

impl vstd::std_specs::convert::FromSpecImpl<DictionaryNode> for AstNode {
    open spec fn obeys_from_spec() -> bool {
        true
    }

    open spec fn from_spec(value: DictionaryNode) -> AstNode {
        AstNode::Dictionary(value)
    }
}

impl From<DictionaryNode> for BoxedAstNode {
    fn from(value: DictionaryNode) -> BoxedAstNode {
        BoxedAstNode(AstNode::Dictionary(value))
    }
}

impl vstd::std_specs::convert::FromSpecImpl<DictionaryNode> for BoxedAstNode {
    open spec fn obeys_from_spec() -> bool {
        true
    }

    open spec fn from_spec(value: DictionaryNode) -> BoxedAstNode {
        BoxedAstNode(AstNode::Dictionary(value))
    }
}

impl From<ListNode> for AstNode {
    fn from(value: ListNode) -> AstNode {
        AstNode::List(value)
    }
}

impl vstd::std_specs::convert::FromSpecImpl<ListNode> for AstNode {
    open spec fn obeys_from_spec() -> bool {
        true
    }

    open spec fn from_spec(value: ListNode) -> AstNode {
        AstNode::List(value)
    }
}

impl From<ListNode> for BoxedAstNode {
    fn from(value: ListNode) -> BoxedAstNode {
        BoxedAstNode(AstNode::List(value))
    }
}

impl vstd::std_specs::convert::FromSpecImpl<ListNode> for BoxedAstNode {
    open spec fn obeys_from_spec() -> bool {
        true
    }

    open spec fn from_spec(value: ListNode) -> BoxedAstNode {
        BoxedAstNode(AstNode::List(value))
    }
}

impl From<AstNode> for BoxedAstNode {
    fn from(value: AstNode) -> BoxedAstNode {
        BoxedAstNode(value)
    }
}

impl vstd::std_specs::convert::FromSpecImpl<AstNode> for BoxedAstNode {
    open spec fn obeys_from_spec() -> bool {
        true
    }

    open spec fn from_spec(value: AstNode) -> BoxedAstNode {
        BoxedAstNode(value)
    }
}

} // verus!
