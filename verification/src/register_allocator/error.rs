use vstd::prelude::*;
use crate::text::{push_str, u64_to_text, usize_to_text, decimal};
use crate::virtual_register::VirtualRegister;

verus! {

/// Why register allocation failed.
#[derive(Debug, PartialEq)]
pub enum RegisterAllocatorError {
    FunctionNotFound { function: String },
    TooManyParameters { function: String, actual: usize },
    TooManyArguments { function: String, actual: usize },
    Other { message: String },
}

impl RegisterAllocatorError {
    /// The message of the error, as the compiler reports it.
    pub fn to_text(&self) -> (r: String)
        ensures
            match *self {
                RegisterAllocatorError::FunctionNotFound { function } => r@ == "Function '"@ + function@ + "' not found"@,
                RegisterAllocatorError::TooManyParameters { function, actual } => r@ == "Too many parameters for function '"@
                    + function@ + "': expected at most 6, got "@ + crate::text::decimal(actual as nat),
                RegisterAllocatorError::TooManyArguments { function, actual } => r@ == "Too many arguments for function '"@
                    + function@ + "': expected at most 6, got "@ + crate::text::decimal(actual as nat),
                RegisterAllocatorError::Other { message } => r@ == message@,
            },
    {
        let mut s = String::new();
        match self {
            RegisterAllocatorError::FunctionNotFound { function } => {
                push_str(&mut s, "Function '");
                push_str(&mut s, function.as_str());
                push_str(&mut s, "' not found");
            },
            RegisterAllocatorError::TooManyParameters { function, actual } => {
                push_str(&mut s, "Too many parameters for function '");
                push_str(&mut s, function.as_str());
                push_str(&mut s, "': expected at most 6, got ");
                let n = usize_to_text(*actual);
                push_str(&mut s, n.as_str());
            },
            RegisterAllocatorError::TooManyArguments { function, actual } => {
                push_str(&mut s, "Too many arguments for function '");
                push_str(&mut s, function.as_str());
                push_str(&mut s, "': expected at most 6, got ");
                let n = usize_to_text(*actual);
                push_str(&mut s, n.as_str());
            },
            RegisterAllocatorError::Other { message } => {
                push_str(&mut s, message.as_str());
            },
        }
        s
    }
}

/// The debug form of a register.
pub open spec fn register_debug(r: VirtualRegister) -> Seq<char> {
    "VirtualRegister { id: "@ + decimal(r.id as nat) + if r.stored {
        ", stored: true }"@
    } else {
        ", stored: false }"@
    }
}

/// The debug forms of registers, separated by commas.
pub open spec fn registers_debug(rs: Seq<VirtualRegister>) -> Seq<char>
    decreases rs.len(),
{
    if rs.len() == 0 {
        Seq::empty()
    } else if rs.len() == 1 {
        register_debug(rs[0])
    } else {
        registers_debug(rs.drop_last()) + ", "@ + register_debug(rs.last())
    }
}

/// A list of registers written as a set of their debug forms:
/// `{VirtualRegister { id: 1, stored: false }, ...}`.
pub fn registers_text(regs: &Vec<VirtualRegister>) -> (r: String)
    ensures
        r@ == "{"@ + registers_debug(regs@) + "}"@,
{
    let mut s = String::new();
    push_str(&mut s, "{");
    let mut i: usize = 0;
    while i < regs.len()
        invariant
            i <= regs@.len(),
            s@ == "{"@ + registers_debug(regs@.subrange(0, i as int)),
        decreases regs.len() - i,
    {
        let ghost before = s@;
        if i > 0 {
            push_str(&mut s, ", ");
        }
        push_str(&mut s, "VirtualRegister { id: ");
        let id = u64_to_text(regs[i].id as u64);
        push_str(&mut s, id.as_str());
        if regs[i].stored {
            push_str(&mut s, ", stored: true }");
        } else {
            push_str(&mut s, ", stored: false }");
        }
        proof {
            let sub = regs@.subrange(0, i + 1);
            assert(sub.drop_last() =~= regs@.subrange(0, i as int));
            assert(sub.last() == regs@[i as int]);
            if i == 0 {
                assert(sub.len() == 1);
                assert(s@ =~= "{"@ + registers_debug(sub));
            } else {
                assert(s@ =~= "{"@ + registers_debug(sub));
            }
        }
        i += 1;
    }
    push_str(&mut s, "}");
    proof {
        assert(regs@.subrange(0, regs@.len() as int) =~= regs@);
    }
    s
}

} // verus!
