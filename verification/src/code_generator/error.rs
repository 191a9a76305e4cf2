use vstd::prelude::*;
use crate::text::push_str;

verus! {

/// Why assembly generation failed.
#[derive(Debug, PartialEq)]
pub struct CodeGeneratorError {
    pub message: String,
}

impl CodeGeneratorError {
    /// `CodeGeneratorError: ` followed by the message.
    pub fn to_text(&self) -> (r: String)
        ensures
            r@ == "CodeGeneratorError: "@ + self.message@,
    {
        let mut s = String::new();
        push_str(&mut s, "CodeGeneratorError: ");
        push_str(&mut s, self.message.as_str());
        s
    }
}

} // verus!
