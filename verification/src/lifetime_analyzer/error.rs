use vstd::prelude::*;
use crate::text::push_str;

verus! {

/// Why a lifetime analysis failed.
#[derive(Debug, PartialEq)]
pub struct LifetimeAnalyzerError {
    pub message: String,
}

impl LifetimeAnalyzerError {
    pub fn new(message: String) -> (r: Self)
        ensures
            r.message == message,
    {
        LifetimeAnalyzerError { message }
    }

    /// `LifetimeAnalyzerError: ` followed by the message.
    pub fn to_text(&self) -> (r: String)
        ensures
            r@ == "LifetimeAnalyzerError: "@ + self.message@,
    {
        let mut s = String::new();
        push_str(&mut s, "LifetimeAnalyzerError: ");
        push_str(&mut s, self.message.as_str());
        s
    }
}

} // verus!
