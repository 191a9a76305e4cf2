//! The x86-64 general purpose registers and the calling convention.
use vstd::prelude::*;

verus! {

#[derive(Debug, Clone, Copy, PartialEq, Eq, Hash, PartialOrd, Ord, Structural)]
pub enum PhysicalRegister {
    RAX,
    RBX,
    RCX,
    RDX,
    RDI,
    RSI,
    RSP,
    RBP,
    R8,
    R9,
    R10,
    R11,
    R12,
    R13,
    R14,
    R15,
}

impl PhysicalRegister {
    pub open spec fn spec_id(&self) -> u32 {
        match *self {
            PhysicalRegister::RAX => 0,
            PhysicalRegister::RBX => 1,
            PhysicalRegister::RCX => 2,
            PhysicalRegister::RDX => 3,
            PhysicalRegister::RDI => 4,
            PhysicalRegister::RSI => 5,
            PhysicalRegister::RSP => 6,
            PhysicalRegister::RBP => 7,
            PhysicalRegister::R8 => 8,
            PhysicalRegister::R9 => 9,
            PhysicalRegister::R10 => 10,
            PhysicalRegister::R11 => 11,
            PhysicalRegister::R12 => 12,
            PhysicalRegister::R13 => 13,
            PhysicalRegister::R14 => 14,
            PhysicalRegister::R15 => 15,
        }
    }

    /// The hardware encoding number of the register.
    pub fn id(&self) -> (r: u32)
        ensures
            r == self.spec_id(),
    {
        match self {
            PhysicalRegister::RAX => 0,
            PhysicalRegister::RBX => 1,
            PhysicalRegister::RCX => 2,
            PhysicalRegister::RDX => 3,
            PhysicalRegister::RDI => 4,
            PhysicalRegister::RSI => 5,
            PhysicalRegister::RSP => 6,
            PhysicalRegister::RBP => 7,
            PhysicalRegister::R8 => 8,
            PhysicalRegister::R9 => 9,
            PhysicalRegister::R10 => 10,
            PhysicalRegister::R11 => 11,
            PhysicalRegister::R12 => 12,
            PhysicalRegister::R13 => 13,
            PhysicalRegister::R14 => 14,
            PhysicalRegister::R15 => 15,
        }
    }

    pub open spec fn spec_name(&self) -> Seq<char> {
        match *self {
            PhysicalRegister::RAX => "%rax"@,
            PhysicalRegister::RBX => "%rbx"@,
            PhysicalRegister::RCX => "%rcx"@,
            PhysicalRegister::RDX => "%rdx"@,
            PhysicalRegister::RDI => "%rdi"@,
            PhysicalRegister::RSI => "%rsi"@,
            PhysicalRegister::RSP => "%rsp"@,
            PhysicalRegister::RBP => "%rbp"@,
            PhysicalRegister::R8 => "%r8"@,
            PhysicalRegister::R9 => "%r9"@,
            PhysicalRegister::R10 => "%r10"@,
            PhysicalRegister::R11 => "%r11"@,
            PhysicalRegister::R12 => "%r12"@,
            PhysicalRegister::R13 => "%r13"@,
            PhysicalRegister::R14 => "%r14"@,
            PhysicalRegister::R15 => "%r15"@,
        }
    }

    /// AT&T name of the 64-bit register.
    pub fn name(&self) -> (r: &'static str)
        ensures
            r@ == self.spec_name(),
    {
        match self {
            PhysicalRegister::RAX => "%rax",
            PhysicalRegister::RBX => "%rbx",
            PhysicalRegister::RCX => "%rcx",
            PhysicalRegister::RDX => "%rdx",
            PhysicalRegister::RDI => "%rdi",
            PhysicalRegister::RSI => "%rsi",
            PhysicalRegister::RSP => "%rsp",
            PhysicalRegister::RBP => "%rbp",
            PhysicalRegister::R8 => "%r8",
            PhysicalRegister::R9 => "%r9",
            PhysicalRegister::R10 => "%r10",
            PhysicalRegister::R11 => "%r11",
            PhysicalRegister::R12 => "%r12",
            PhysicalRegister::R13 => "%r13",
            PhysicalRegister::R14 => "%r14",
            PhysicalRegister::R15 => "%r15",
        }
    }

    pub open spec fn spec_dword_name(&self) -> Seq<char> {
        match *self {
            PhysicalRegister::RAX => "%eax"@,
            PhysicalRegister::RBX => "%ebx"@,
            PhysicalRegister::RCX => "%ecx"@,
            PhysicalRegister::RDX => "%edx"@,
            PhysicalRegister::RDI => "%edi"@,
            PhysicalRegister::RSI => "%esi"@,
            PhysicalRegister::RSP => "%esp"@,
            PhysicalRegister::RBP => "%ebp"@,
            PhysicalRegister::R8 => "%r8d"@,
            PhysicalRegister::R9 => "%r9d"@,
            PhysicalRegister::R10 => "%r10d"@,
            PhysicalRegister::R11 => "%r11d"@,
            PhysicalRegister::R12 => "%r12d"@,
            PhysicalRegister::R13 => "%r13d"@,
            PhysicalRegister::R14 => "%r14d"@,
            PhysicalRegister::R15 => "%r15d"@,
        }
    }

    /// AT&T name of the low 32 bits.
    pub fn dword_name(&self) -> (r: &'static str)
        ensures
            r@ == self.spec_dword_name(),
    {
        match self {
            PhysicalRegister::RAX => "%eax",
            PhysicalRegister::RBX => "%ebx",
            PhysicalRegister::RCX => "%ecx",
            PhysicalRegister::RDX => "%edx",
            PhysicalRegister::RDI => "%edi",
            PhysicalRegister::RSI => "%esi",
            PhysicalRegister::RSP => "%esp",
            PhysicalRegister::RBP => "%ebp",
            PhysicalRegister::R8 => "%r8d",
            PhysicalRegister::R9 => "%r9d",
            PhysicalRegister::R10 => "%r10d",
            PhysicalRegister::R11 => "%r11d",
            PhysicalRegister::R12 => "%r12d",
            PhysicalRegister::R13 => "%r13d",
            PhysicalRegister::R14 => "%r14d",
            PhysicalRegister::R15 => "%r15d",
        }
    }

    pub open spec fn spec_word_name(&self) -> Seq<char> {
        match *self {
            PhysicalRegister::RAX => "%ax"@,
            PhysicalRegister::RBX => "%bx"@,
            PhysicalRegister::RCX => "%cx"@,
            PhysicalRegister::RDX => "%dx"@,
            PhysicalRegister::RDI => "%di"@,
            PhysicalRegister::RSI => "%si"@,
            PhysicalRegister::RSP => "%sp"@,
            PhysicalRegister::RBP => "%bp"@,
            PhysicalRegister::R8 => "%r8w"@,
            PhysicalRegister::R9 => "%r9w"@,
            PhysicalRegister::R10 => "%r10w"@,
            PhysicalRegister::R11 => "%r11w"@,
            PhysicalRegister::R12 => "%r12w"@,
            PhysicalRegister::R13 => "%r13w"@,
            PhysicalRegister::R14 => "%r14w"@,
            PhysicalRegister::R15 => "%r15w"@,
        }
    }

    /// AT&T name of the low 16 bits.
    pub fn word_name(&self) -> (r: &'static str)
        ensures
            r@ == self.spec_word_name(),
    {
        match self {
            PhysicalRegister::RAX => "%ax",
            PhysicalRegister::RBX => "%bx",
            PhysicalRegister::RCX => "%cx",
            PhysicalRegister::RDX => "%dx",
            PhysicalRegister::RDI => "%di",
            PhysicalRegister::RSI => "%si",
            PhysicalRegister::RSP => "%sp",
            PhysicalRegister::RBP => "%bp",
            PhysicalRegister::R8 => "%r8w",
            PhysicalRegister::R9 => "%r9w",
            PhysicalRegister::R10 => "%r10w",
            PhysicalRegister::R11 => "%r11w",
            PhysicalRegister::R12 => "%r12w",
            PhysicalRegister::R13 => "%r13w",
            PhysicalRegister::R14 => "%r14w",
            PhysicalRegister::R15 => "%r15w",
        }
    }

    pub open spec fn spec_byte_name(&self) -> Seq<char> {
        match *self {
            PhysicalRegister::RAX => "%al"@,
            PhysicalRegister::RBX => "%bl"@,
            PhysicalRegister::RCX => "%cl"@,
            PhysicalRegister::RDX => "%dl"@,
            PhysicalRegister::RDI => "%dil"@,
            PhysicalRegister::RSI => "%sil"@,
            PhysicalRegister::RSP => "%spl"@,
            PhysicalRegister::RBP => "%bpl"@,
            PhysicalRegister::R8 => "%r8b"@,
            PhysicalRegister::R9 => "%r9b"@,
            PhysicalRegister::R10 => "%r10b"@,
            PhysicalRegister::R11 => "%r11b"@,
            PhysicalRegister::R12 => "%r12b"@,
            PhysicalRegister::R13 => "%r13b"@,
            PhysicalRegister::R14 => "%r14b"@,
            PhysicalRegister::R15 => "%r15b"@,
        }
    }

    /// AT&T name of the low byte.
    pub fn byte_name(&self) -> (r: &'static str)
        ensures
            r@ == self.spec_byte_name(),
    {
        match self {
            PhysicalRegister::RAX => "%al",
            PhysicalRegister::RBX => "%bl",
            PhysicalRegister::RCX => "%cl",
            PhysicalRegister::RDX => "%dl",
            PhysicalRegister::RDI => "%dil",
            PhysicalRegister::RSI => "%sil",
            PhysicalRegister::RSP => "%spl",
            PhysicalRegister::RBP => "%bpl",
            PhysicalRegister::R8 => "%r8b",
            PhysicalRegister::R9 => "%r9b",
            PhysicalRegister::R10 => "%r10b",
            PhysicalRegister::R11 => "%r11b",
            PhysicalRegister::R12 => "%r12b",
            PhysicalRegister::R13 => "%r13b",
            PhysicalRegister::R14 => "%r14b",
            PhysicalRegister::R15 => "%r15b",
        }
    }

    pub open spec fn spec_is_caller_save(&self) -> bool {
        *self is RAX || *self is RCX || *self is RDX || *self is RDI || *self is RSI
            || *self is RSP || *self is R8 || *self is R9 || *self is R10 || *self is R11
    }

    pub open spec fn spec_is_callee_save(&self) -> bool {
        *self is RBX || *self is RBP || *self is R12 || *self is R13 || *self is R14
            || *self is R15
    }

    /// Registers that a call may overwrite (the System V caller-saved set, with `%rsp`).
    pub fn is_caller_save(&self) -> (r: bool)
        ensures
            r == self.spec_is_caller_save(),
    {
        matches!(
            self,
            PhysicalRegister::RAX | PhysicalRegister::RCX | PhysicalRegister::RDX
                | PhysicalRegister::RDI | PhysicalRegister::RSI | PhysicalRegister::RSP
                | PhysicalRegister::R8 | PhysicalRegister::R9 | PhysicalRegister::R10
                | PhysicalRegister::R11
        )
    }

    /// Registers that a callee must preserve.
    pub fn is_callee_save(&self) -> (r: bool)
        ensures
            r == self.spec_is_callee_save(),
    {
        matches!(
            self,
            PhysicalRegister::RBX | PhysicalRegister::RBP | PhysicalRegister::R12
                | PhysicalRegister::R13 | PhysicalRegister::R14 | PhysicalRegister::R15
        )
    }
}

/// The registers that carry the first six integer arguments, in order.
pub open spec fn spec_argument_register(i: int) -> PhysicalRegister {
    if i == 0 {
        PhysicalRegister::RDI
    } else if i == 1 {
        PhysicalRegister::RSI
    } else if i == 2 {
        PhysicalRegister::RDX
    } else if i == 3 {
        PhysicalRegister::RCX
    } else if i == 4 {
        PhysicalRegister::R8
    } else {
        PhysicalRegister::R9
    }
}

/// How many arguments travel in registers.
pub const ARGUMENT_REGISTER_COUNT: usize = 6;

/// The register for argument `i` (from 0).
pub fn argument_register(i: usize) -> (r: PhysicalRegister)
    requires
        i < ARGUMENT_REGISTER_COUNT,
    ensures
        r == spec_argument_register(i as int),
{
    if i == 0 {
        PhysicalRegister::RDI
    } else if i == 1 {
        PhysicalRegister::RSI
    } else if i == 2 {
        PhysicalRegister::RDX
    } else if i == 3 {
        PhysicalRegister::RCX
    } else if i == 4 {
        PhysicalRegister::R8
    } else {
        PhysicalRegister::R9
    }
}

/// The callee-saved registers, in the order the calling convention lists them.
pub open spec fn callee_save_list() -> Seq<PhysicalRegister> {
    seq![
        PhysicalRegister::RBX,
        PhysicalRegister::RBP,
        PhysicalRegister::R12,
        PhysicalRegister::R13,
        PhysicalRegister::R14,
        PhysicalRegister::R15,
    ]
}

/// The callee-saved registers, in the order the calling convention lists them.
pub fn callee_save_registers() -> (r: Vec<PhysicalRegister>)
    ensures
        r@ == callee_save_list(),
{
    vec![
        PhysicalRegister::RBX,
        PhysicalRegister::RBP,
        PhysicalRegister::R12,
        PhysicalRegister::R13,
        PhysicalRegister::R14,
        PhysicalRegister::R15,
    ]
}

/// The caller-saved registers, in the order the calling convention lists them.
pub fn caller_save_registers() -> (r: Vec<PhysicalRegister>)
    ensures
        r@ == seq![
            PhysicalRegister::RAX,
            PhysicalRegister::RCX,
            PhysicalRegister::RDX,
            PhysicalRegister::RDI,
            PhysicalRegister::RSI,
            PhysicalRegister::RSP,
            PhysicalRegister::R8,
            PhysicalRegister::R9,
            PhysicalRegister::R10,
            PhysicalRegister::R11,
        ],
{
    vec![
        PhysicalRegister::RAX,
        PhysicalRegister::RCX,
        PhysicalRegister::RDX,
        PhysicalRegister::RDI,
        PhysicalRegister::RSI,
        PhysicalRegister::RSP,
        PhysicalRegister::R8,
        PhysicalRegister::R9,
        PhysicalRegister::R10,
        PhysicalRegister::R11,
    ]
}

/// The caller-saved set is the set of registers whose predicate says so.
pub proof fn lemma_save_sets(r: PhysicalRegister)
    ensures
        r.spec_is_callee_save() <==> seq![
            PhysicalRegister::RBX,
            PhysicalRegister::RBP,
            PhysicalRegister::R12,
            PhysicalRegister::R13,
            PhysicalRegister::R14,
            PhysicalRegister::R15,
        ].contains(r),
        !(r.spec_is_callee_save() && r.spec_is_caller_save()),
        r.spec_is_callee_save() || r.spec_is_caller_save(),
{
    let s = seq![
        PhysicalRegister::RBX,
        PhysicalRegister::RBP,
        PhysicalRegister::R12,
        PhysicalRegister::R13,
        PhysicalRegister::R14,
        PhysicalRegister::R15,
    ];
    if r.spec_is_callee_save() {
        if r is RBX { assert(s[0] == r); }
        if r is RBP { assert(s[1] == r); }
        if r is R12 { assert(s[2] == r); }
        if r is R13 { assert(s[3] == r); }
        if r is R14 { assert(s[4] == r); }
        if r is R15 { assert(s[5] == r); }
    }
}

} // verus!
