//! Parser for the `Дід` notation: a compact, JSON-like text format with
//! Ukrainian keyword literals, read into a tree of nodes that remember where
//! in the text each of them starts.

pub mod chars;
pub mod cloning;
pub mod conversions;
pub mod equality;
pub mod error;
pub mod grammar;
pub mod laws;
pub mod lexer;
pub mod node;
pub mod parse;
pub mod parser;
pub mod position;
pub mod roundtrip;

pub use error::{ParseError, ParseErrorExpectation};
pub use node::{
    AstNode, BoxedAstNode, Did, DictionaryEntryKey, DictionaryEntryNode, DictionaryNode, EmptyNode,
    ListNode, LogicalNode, Number, NumberNode, ObjectEntryNode, ObjectNode, TextNode,
};
pub use equality::EqIgnoreContext;
pub use parse::{list_end, list_start, parse, skip_whitespace, Api};
pub use position::{NodeContext, Offset};
