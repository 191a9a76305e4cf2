//! The lifetime analysis of a module.
use vstd::prelude::*;
use crate::ir_generator::domain::{IRFunction, IRModule};
use crate::lifetime_analyzer::domain::{FunctionLifetime, LifetimeTable};
use crate::lifetime_analyzer::element::function_elements;
use crate::lifetime_analyzer::error::LifetimeAnalyzerError;
use crate::lifetime_analyzer::function::{analyze_function, lifetime_of};
use crate::lifetime_analyzer::element::{function_missing, missing_message};

verus! {

/// A function whose parameters have an entry block to be assigned in.
pub open spec fn analyzable(f: IRFunction) -> bool {
    f.body@.len() > 0 || (f.parameter_regs@.len() == 0 && f.parameters@.len() == 0)
}

/// Analyzes every function in module order. Fails on the first function
/// whose elements cannot be collected, naming the first register it reads
/// before anything assigns it; otherwise entry `i` of the table is
/// the analysis of function `i` (see [`lifetime_of`]).
pub fn analyze_lifetime(module: &IRModule) -> (r: Result<LifetimeTable, LifetimeAnalyzerError>)
    requires
        forall|i: int| 0 <= i < module.functions@.len() ==> analyzable(#[trigger] module.functions@[i]),
    ensures
        r is Ok <==> forall|i: int| 0 <= i < module.functions@.len() ==> (function_elements(#[trigger] module.functions@[i]) is Some),
        r matches Ok(t) ==> t.functions@.len() == module.functions@.len() && forall|i: int|
            0 <= i < module.functions@.len() ==> lifetime_of(module.functions@[i], #[trigger] t.functions@[i]),
        r is Err ==> exists|i: int| 0 <= i < module.functions@.len() && function_elements(#[trigger] module.functions@[i]) is None
            && (forall|j: int| 0 <= j < i ==> function_elements(#[trigger] module.functions@[j]) is Some)
            && r->Err_0.message@ == missing_message(function_missing(module.functions@[i])),
{
    let mut functions: Vec<FunctionLifetime> = Vec::new();
    let mut i: usize = 0;
    while i < module.functions.len()
        invariant
            i <= module.functions@.len(),
            forall|j: int| 0 <= j < module.functions@.len() ==> analyzable(#[trigger] module.functions@[j]),
            functions@.len() == i,
            forall|j: int| 0 <= j < i ==> (function_elements(#[trigger] module.functions@[j]) is Some),
            forall|j: int| 0 <= j < i ==> lifetime_of(module.functions@[j], #[trigger] functions@[j]),
        decreases module.functions.len() - i,
    {
        match analyze_function(&module.functions[i]) {
            Ok(l) => {
                functions.push(l);
            },
            Err(e) => {
                proof {
                    assert(function_elements(module.functions@[i as int]) is None);
                }
                return Err(e);
            },
        }
        i += 1;
    }
    Ok(LifetimeTable { functions })
}

} // verus!
