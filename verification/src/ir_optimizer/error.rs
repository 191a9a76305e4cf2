use vstd::prelude::*;
use crate::text::push_str;

verus! {

/// Why an optimization pass gave up.
#[derive(Debug, PartialEq)]
pub struct IROptimizerError {
    pub message: String,
}

impl IROptimizerError {
    pub fn new(message: String) -> (r: Self)
        ensures
            r.message == message,
    {
        IROptimizerError { message }
    }

    /// `IROptimizerError: ` followed by the message.
    pub fn to_text(&self) -> (r: String)
        ensures
            r@ == "IROptimizerError: "@ + self.message@,
    {
        let mut s = String::new();
        push_str(&mut s, "IROptimizerError: ");
        push_str(&mut s, self.message.as_str());
        s
    }
}

} // verus!
