use vstd::prelude::*;
use crate::ast::{node_height, outline, ASTNode};
use crate::text::push_str;

verus! {

/// An IR generation error with the syntax node it concerns.
#[derive(Debug)]
pub struct IRGeneratorError {
    pub message: String,
    pub node: Box<ASTNode>,
}

impl IRGeneratorError {
    /// `IRGeneratorError: <message> at ` followed by the outline of the node.
    pub fn to_text(&self) -> (r: String)
        requires
            2 * node_height(*self.node) < usize::MAX - 2,
        ensures
            r@ == "IRGeneratorError: "@ + self.message@ + " at "@ + outline(*self.node, 0),
    {
        let mut s = String::new();
        push_str(&mut s, "IRGeneratorError: ");
        push_str(&mut s, self.message.as_str());
        push_str(&mut s, " at ");
        let node = self.node.to_text();
        push_str(&mut s, node.as_str());
        s
    }
}

} // verus!
