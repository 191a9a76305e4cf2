//! The intermediate representation: modules of functions made of numbered
//! blocks of three-address nodes over virtual registers.
use vstd::prelude::*;
use crate::virtual_register::VirtualRegister;
use crate::text::{push_str, usize_to_text, decimal};

verus! {

#[derive(Debug, PartialEq)]
pub struct IRModule {
    pub functions: Vec<IRFunction>,
    pub global_variables: Vec<IRVariableDeclaration>,
    pub strings: Vec<IRString>,
}

#[derive(Debug, PartialEq)]
pub struct IRVariableDeclaration {
    pub name: String,
    pub ty: VariableType,
}

#[derive(Debug, Clone, Copy, PartialEq, Eq, Structural)]
pub enum VariableType {
    Char,
    Int,
    Long,
    Pointer,
}

impl VariableType {
    pub open spec fn spec_size(&self) -> usize {
        match *self {
            VariableType::Char => 1,
            VariableType::Int => 4,
            VariableType::Long => 8,
            VariableType::Pointer => 8,
        }
    }

    /// Size in bytes of a global of this type.
    pub fn size(&self) -> (r: usize)
        ensures
            r == self.spec_size(),
    {
        match self {
            VariableType::Char => 1,
            VariableType::Int => 4,
            VariableType::Long => 8,
            VariableType::Pointer => 8,
        }
    }
}

#[derive(Debug, PartialEq)]
pub struct IRFunction {
    pub name: String,
    /// Registers that hold the parameters inside the body (free to allocate).
    pub parameters: Vec<VirtualRegister>,
    /// Registers bound to the argument registers of the calling convention.
    pub parameter_regs: Vec<VirtualRegister>,
    pub body: Vec<IRBlock>,
}

#[derive(Debug, PartialEq)]
pub struct IRBlock {
    pub id: usize,
    pub nodes: Vec<IRNode>,
}

#[derive(Debug, PartialEq)]
pub struct IRNode {
    pub kind: IRNodeKind,
}

#[allow(inconsistent_fields)]
#[derive(Debug, PartialEq)]
pub enum IRNodeKind {
    NoOp,
    VariableDeclaration { reg: VirtualRegister },
    Assign { variable: IRVariable, value: IRValue },
    AddressAssignment { address: IRValue, value: IRValue },
    /// Stores a register into stack slot `offset` (0, 1, 2, ...).
    Spill { reg: VirtualRegister, offset: usize },
    /// Loads a register from stack slot `offset` (0, 1, 2, ...).
    Unspill { reg: VirtualRegister, offset: usize },
    Lea { base: IRValue, index: VirtualRegister, scaler: i64, result: VirtualRegister },
    BinaryOp {
        op: IRBinaryOp,
        left: IRValue,
        right: IRValue,
        result: VirtualRegister,
        /// The second result of a division (the remainder, in `%rdx`).
        optional_result: Option<VirtualRegister>,
    },
    UnaryOp { op: IRUnaryOp, operand: IRValue, result: VirtualRegister },
    FunctionCall {
        name: IRVariable,
        arguments: Vec<IRValue>,
        argument_regs: Vec<VirtualRegister>,
        result: Option<VirtualRegister>,
    },
    Branch { condition: Option<IRValue>, true_branch: Option<usize>, false_branch: Option<usize> },
    Return { value: Option<IRValue> },
}

#[derive(Debug, PartialEq)]
pub enum IRValue {
    GlobalVariable(String),
    Immediate(i64),
    StringLiteral { string: Box<IRString>, reg: VirtualRegister },
    Register(VirtualRegister),
}

#[derive(Debug, PartialEq)]
pub struct IRString {
    pub id: usize,
    pub value: String,
}

#[derive(Debug, Clone, Copy, PartialEq, Eq, Structural)]
pub enum IRBinaryOp {
    Add,
    Sub,
    Mul,
    Div,
    Eq,
    Less,
    BitAnd,
    BitOr,
}

#[derive(Debug, Clone, Copy, PartialEq, Eq, Structural)]
pub enum IRUnaryOp {
    Neg,
    Not,
    Address,
    Deref,
}

#[derive(Debug, PartialEq)]
pub enum IRVariable {
    Global(String),
    Register(VirtualRegister),
}

impl Clone for IRString {
    fn clone(&self) -> (r: Self)
        ensures
            r == *self,
    {
        IRString { id: self.id, value: self.value.clone() }
    }
}

impl Clone for IRValue {
    fn clone(&self) -> (r: Self)
        ensures
            r == *self,
    {
        match self {
            IRValue::GlobalVariable(s) => IRValue::GlobalVariable(s.clone()),
            IRValue::Immediate(v) => IRValue::Immediate(*v),
            IRValue::StringLiteral { string, reg } => IRValue::StringLiteral {
                string: Box::new(IRString::clone(string)),
                reg: *reg,
            },
            IRValue::Register(r) => IRValue::Register(*r),
        }
    }
}

impl Clone for IRVariable {
    fn clone(&self) -> (r: Self)
        ensures
            r == *self,
    {
        match self {
            IRVariable::Global(s) => IRVariable::Global(s.clone()),
            IRVariable::Register(r) => IRVariable::Register(*r),
        }
    }
}

impl Clone for IRVariableDeclaration {
    fn clone(&self) -> (r: Self)
        ensures
            r == *self,
    {
        IRVariableDeclaration { name: self.name.clone(), ty: self.ty }
    }
}

/// Two node kinds carry the same data (calls compared by the contents of
/// their argument vectors).
pub open spec fn same_kind(a: IRNodeKind, b: IRNodeKind) -> bool {
    match (a, b) {
        (
            IRNodeKind::FunctionCall { name: n1, arguments: a1, argument_regs: r1, result: res1 },
            IRNodeKind::FunctionCall { name: n2, arguments: a2, argument_regs: r2, result: res2 },
        ) => n1 == n2 && a1@ == a2@ && r1@ == r2@ && res1 == res2,
        _ => a == b,
    }
}

pub fn clone_values(v: &Vec<IRValue>) -> (r: Vec<IRValue>)
    ensures
        r@ == v@,
{
    let mut out: Vec<IRValue> = Vec::new();
    let mut i: usize = 0;
    while i < v.len()
        invariant
            i <= v.len(),
            out@ == v@.subrange(0, i as int),
        decreases v.len() - i,
    {
        out.push(v[i].clone());
        i += 1;
        proof {
            assert(out@ =~= v@.subrange(0, i as int));
        }
    }
    proof {
        assert(v@.subrange(0, v.len() as int) =~= v@);
    }
    out
}

pub fn clone_registers(v: &Vec<VirtualRegister>) -> (r: Vec<VirtualRegister>)
    ensures
        r@ == v@,
{
    let mut out: Vec<VirtualRegister> = Vec::new();
    let mut i: usize = 0;
    while i < v.len()
        invariant
            i <= v.len(),
            out@ == v@.subrange(0, i as int),
        decreases v.len() - i,
    {
        out.push(v[i]);
        i += 1;
        proof {
            assert(out@ =~= v@.subrange(0, i as int));
        }
    }
    proof {
        assert(v@.subrange(0, v.len() as int) =~= v@);
    }
    out
}

impl Clone for IRNodeKind {
    fn clone(&self) -> (r: Self)
        ensures
            same_kind(r, *self),
    {
        match self {
            IRNodeKind::NoOp => IRNodeKind::NoOp,
            IRNodeKind::VariableDeclaration { reg } => IRNodeKind::VariableDeclaration { reg: *reg },
            IRNodeKind::Assign { variable, value } => IRNodeKind::Assign {
                variable: variable.clone(),
                value: value.clone(),
            },
            IRNodeKind::AddressAssignment { address, value } => IRNodeKind::AddressAssignment {
                address: address.clone(),
                value: value.clone(),
            },
            IRNodeKind::Spill { reg, offset } => IRNodeKind::Spill { reg: *reg, offset: *offset },
            IRNodeKind::Unspill { reg, offset } => IRNodeKind::Unspill { reg: *reg, offset: *offset },
            IRNodeKind::Lea { base, index, scaler, result } => IRNodeKind::Lea {
                base: base.clone(),
                index: *index,
                scaler: *scaler,
                result: *result,
            },
            IRNodeKind::BinaryOp { op, left, right, result, optional_result } => IRNodeKind::BinaryOp {
                op: *op,
                left: left.clone(),
                right: right.clone(),
                result: *result,
                optional_result: *optional_result,
            },
            IRNodeKind::UnaryOp { op, operand, result } => IRNodeKind::UnaryOp {
                op: *op,
                operand: operand.clone(),
                result: *result,
            },
            IRNodeKind::FunctionCall { name, arguments, argument_regs, result } => IRNodeKind::FunctionCall {
                name: name.clone(),
                arguments: clone_values(arguments),
                argument_regs: clone_registers(argument_regs),
                result: *result,
            },
            IRNodeKind::Branch { condition, true_branch, false_branch } => IRNodeKind::Branch {
                condition: match condition {
                    Some(c) => Some(c.clone()),
                    None => None,
                },
                true_branch: *true_branch,
                false_branch: *false_branch,
            },
            IRNodeKind::Return { value } => IRNodeKind::Return {
                value: match value {
                    Some(v) => Some(v.clone()),
                    None => None,
                },
            },
        }
    }
}

impl Clone for IRNode {
    fn clone(&self) -> (r: Self)
        ensures
            same_kind(r.kind, self.kind),
    {
        IRNode { kind: self.kind.clone() }
    }
}

impl Clone for IRBlock {
    fn clone(&self) -> (r: Self)
        ensures
            r.id == self.id,
            r.nodes@.len() == self.nodes@.len(),
            forall|i: int| 0 <= i < self.nodes@.len() ==> same_kind(#[trigger] r.nodes@[i].kind, self.nodes@[i].kind),
    {
        let mut nodes: Vec<IRNode> = Vec::new();
        let mut i: usize = 0;
        while i < self.nodes.len()
            invariant
                i <= self.nodes.len(),
                nodes@.len() == i,
                forall|j: int| 0 <= j < i ==> same_kind(#[trigger] nodes@[j].kind, self.nodes@[j].kind),
            decreases self.nodes.len() - i,
        {
            nodes.push(self.nodes[i].clone());
            i += 1;
        }
        IRBlock { id: self.id, nodes }
    }
}

impl Clone for IRFunction {
    fn clone(&self) -> (r: Self)
        ensures
            r.name == self.name,
            r.parameters@ == self.parameters@,
            r.parameter_regs@ == self.parameter_regs@,
            same_body(r.body@, self.body@),
    {
        let mut body: Vec<IRBlock> = Vec::new();
        let mut i: usize = 0;
        while i < self.body.len()
            invariant
                i <= self.body.len(),
                body@.len() == i,
                forall|j: int| 0 <= j < i ==> same_block(#[trigger] body@[j], self.body@[j]),
            decreases self.body.len() - i,
        {
            body.push(self.body[i].clone());
            i += 1;
        }
        IRFunction {
            name: self.name.clone(),
            parameters: clone_registers(&self.parameters),
            parameter_regs: clone_registers(&self.parameter_regs),
            body,
        }
    }
}

impl Clone for IRModule {
    fn clone(&self) -> (r: Self)
        ensures
            r.functions@.len() == self.functions@.len(),
            forall|i: int| 0 <= i < self.functions@.len() ==> same_function(#[trigger] r.functions@[i], self.functions@[i]),
            r.global_variables@ == self.global_variables@,
            r.strings@ == self.strings@,
    {
        let mut functions: Vec<IRFunction> = Vec::new();
        let mut i: usize = 0;
        while i < self.functions.len()
            invariant
                i <= self.functions.len(),
                functions@.len() == i,
                forall|j: int| 0 <= j < i ==> same_function(#[trigger] functions@[j], self.functions@[j]),
            decreases self.functions.len() - i,
        {
            functions.push(self.functions[i].clone());
            i += 1;
        }
        let mut globals: Vec<IRVariableDeclaration> = Vec::new();
        let mut k: usize = 0;
        while k < self.global_variables.len()
            invariant
                k <= self.global_variables.len(),
                globals@ == self.global_variables@.subrange(0, k as int),
            decreases self.global_variables.len() - k,
        {
            globals.push(self.global_variables[k].clone());
            k += 1;
            proof {
                assert(globals@ =~= self.global_variables@.subrange(0, k as int));
            }
        }
        let mut strings: Vec<IRString> = Vec::new();
        let mut m: usize = 0;
        while m < self.strings.len()
            invariant
                m <= self.strings.len(),
                strings@ == self.strings@.subrange(0, m as int),
            decreases self.strings.len() - m,
        {
            strings.push(self.strings[m].clone());
            m += 1;
            proof {
                assert(strings@ =~= self.strings@.subrange(0, m as int));
            }
        }
        proof {
            assert(self.global_variables@.subrange(0, k as int) =~= self.global_variables@);
            assert(self.strings@.subrange(0, m as int) =~= self.strings@);
        }
        IRModule { functions, global_variables: globals, strings }
    }
}

/// Two blocks have the same id and the same nodes.
pub open spec fn same_block(a: IRBlock, b: IRBlock) -> bool {
    &&& a.id == b.id
    &&& a.nodes@.len() == b.nodes@.len()
    &&& forall|i: int| 0 <= i < a.nodes@.len() ==> same_kind(#[trigger] a.nodes@[i].kind, b.nodes@[i].kind)
}

pub open spec fn same_body(a: Seq<IRBlock>, b: Seq<IRBlock>) -> bool {
    &&& a.len() == b.len()
    &&& forall|i: int| 0 <= i < a.len() ==> same_block(#[trigger] a[i], b[i])
}

pub open spec fn same_function(a: IRFunction, b: IRFunction) -> bool {
    &&& a.name == b.name
    &&& a.parameters@ == b.parameters@
    &&& a.parameter_regs@ == b.parameter_regs@
    &&& same_body(a.body@, b.body@)
}

// ---------------------------------------------------------------------------
// Well-formedness: block ids and branch targets.
// ---------------------------------------------------------------------------

/// `t` is a jump target of a node.
pub open spec fn is_target(k: IRNodeKind, t: usize) -> bool {
    match k {
        IRNodeKind::Branch { true_branch, false_branch, .. } => true_branch == Some(t)
            || false_branch == Some(t),
        _ => false,
    }
}

/// Some block of the body has id `id`.
pub open spec fn has_block(body: Seq<IRBlock>, id: usize) -> bool {
    exists|i: int| 0 <= i < body.len() && #[trigger] body[i].id == id
}

/// No two blocks share an id.
pub open spec fn ids_unique(body: Seq<IRBlock>) -> bool {
    forall|i: int, j: int|
        0 <= i < body.len() && 0 <= j < body.len() && #[trigger] body[i].id == #[trigger] body[j].id
            ==> i == j
}

/// `t` is the target of some node of some block.
pub open spec fn referenced(body: Seq<IRBlock>, t: usize) -> bool {
    exists|b: int, n: int|
        0 <= b < body.len() && 0 <= n < body[b].nodes@.len() && #[trigger] is_target(
            body[b].nodes@[n].kind,
            t,
        )
}

/// Every jump lands on a block of the same body.
pub open spec fn targets_closed(body: Seq<IRBlock>) -> bool {
    forall|t: usize| #[trigger] referenced(body, t) ==> has_block(body, t)
}

/// A body with unique block ids whose jumps all land inside it.
pub open spec fn body_wf(body: Seq<IRBlock>) -> bool {
    ids_unique(body) && targets_closed(body)
}

/// Every block's id is its position.
pub open spec fn ids_are_positions(body: Seq<IRBlock>) -> bool {
    forall|i: int| 0 <= i < body.len() ==> #[trigger] body[i].id == i
}

pub proof fn lemma_positions_unique(body: Seq<IRBlock>)
    requires
        ids_are_positions(body),
    ensures
        ids_unique(body),
{
}

impl IRModule {
    /// Every function body is well formed.
    pub open spec fn wf(&self) -> bool {
        forall|i: int| 0 <= i < self.functions@.len() ==> body_wf(#[trigger] self.functions@[i].body@)
    }

    /// Compacts every function (see [`IRFunction::compact`]).
    pub fn compact(&mut self)
        requires
            old(self).wf(),
        ensures
            final(self).functions@.len() == old(self).functions@.len(),
            forall|i: int| 0 <= i < final(self).functions@.len() ==> {
                let f = #[trigger] final(self).functions@[i];
                let g = old(self).functions@[i];
                &&& body_wf(f.body@)
                &&& ids_are_positions(f.body@)
                &&& f.name == g.name
                &&& f.parameters@ == g.parameters@
                &&& f.parameter_regs@ == g.parameter_regs@
                &&& entry_kept(g.body@, f.body@)
                &&& compacted(g.body@, f.body@)
            },
            final(self).global_variables == old(self).global_variables,
            final(self).strings == old(self).strings,
    {
        let mut functions: Vec<IRFunction> = Vec::new();
        let ghost olds = self.functions@;
        let mut rest = Vec::new();
        std::mem::swap(&mut rest, &mut self.functions);
        let mut i: usize = 0;
        while rest.len() > 0
            invariant
                functions@.len() + rest@.len() == olds.len(),
                rest@ == olds.subrange(functions@.len() as int, olds.len() as int),
                forall|k: int| 0 <= k < olds.len() ==> body_wf(#[trigger] olds[k].body@),
                forall|k: int| 0 <= k < functions@.len() ==> {
                    let f = #[trigger] functions@[k];
                    let g = olds[k];
                    &&& body_wf(f.body@)
                    &&& ids_are_positions(f.body@)
                    &&& f.name == g.name
                    &&& f.parameters@ == g.parameters@
                    &&& f.parameter_regs@ == g.parameter_regs@
                    &&& entry_kept(g.body@, f.body@)
                    &&& compacted(g.body@, f.body@)
                },
            decreases rest.len(),
        {
            let ghost done = functions@.len();
            let mut function = rest.remove(0);
            proof {
                assert(function == olds[done as int]);
            }
            function.compact();
            functions.push(function);
            proof {
                assert(rest@ =~= olds.subrange(functions@.len() as int, olds.len() as int));
            }
        }
        self.functions = functions;
    }
}

/// A non-empty entry block stays first, with at least as many nodes.
pub open spec fn entry_kept(before: Seq<IRBlock>, after: Seq<IRBlock>) -> bool {
    before.len() > 0 && before[0].nodes@.len() > 0 ==> after.len() > 0 && after[0].nodes@.len()
        >= before[0].nodes@.len()
}

// ---------------------------------------------------------------------------
// Blocks and nodes.
// ---------------------------------------------------------------------------

impl IRNode {
    pub fn new(kind: IRNodeKind) -> (r: Self)
        ensures
            r.kind == kind,
    {
        IRNode { kind }
    }

    pub open spec fn spec_is_goto(&self) -> bool {
        self.kind is Branch || self.kind is Return
    }

    /// Branches and returns end the straight-line flow.
    pub fn is_goto(&self) -> (r: bool)
        ensures
            r == self.spec_is_goto(),
    {
        matches!(self.kind, IRNodeKind::Branch { .. } | IRNodeKind::Return { .. })
    }
}

impl IRBlock {
    pub open spec fn spec_is_goto(&self) -> bool {
        self.nodes@.len() > 0 && self.nodes@.last().spec_is_goto()
    }

    /// The block ends with a branch or a return.
    pub fn is_goto(&self) -> (r: bool)
        ensures
            r == self.spec_is_goto(),
    {
        if self.nodes.len() == 0 {
            false
        } else {
            self.nodes[self.nodes.len() - 1].is_goto()
        }
    }

    pub open spec fn spec_is_connected_to_next(&self) -> bool {
        if self.nodes@.len() == 0 {
            true
        } else {
            match self.nodes@.last().kind {
                IRNodeKind::Branch { condition, true_branch, false_branch } => !(
                true_branch is Some && false_branch is Some) && condition is Some,
                IRNodeKind::Return { .. } => false,
                _ => true,
            }
        }
    }

    /// Control can fall through from the end of this block to the next one:
    /// it does not end with a return, an unconditional jump, or a branch
    /// with both targets.
    pub fn is_connected_to_next(&self) -> (r: bool)
        ensures
            r == self.spec_is_connected_to_next(),
    {
        if self.nodes.len() == 0 {
            return true;
        }
        match &self.nodes[self.nodes.len() - 1].kind {
            IRNodeKind::Branch { condition, true_branch, false_branch } => {
                if true_branch.is_some() && false_branch.is_some() {
                    false
                } else if condition.is_none() {
                    false
                } else {
                    true
                }
            },
            IRNodeKind::Return { .. } => false,
            _ => true,
        }
    }

    /// Renames the block and every jump target in it with `f`.
    pub fn map_block_ids<F: Fn(usize) -> usize>(&mut self, f: F)
        requires
            forall|x: usize| f.requires((x,)),
        ensures
            block_renamed(*old(self), *final(self), f),
            f.ensures((old(self).id,), final(self).id),
            final(self).nodes@.len() == old(self).nodes@.len(),
            forall|i: int| 0 <= i < old(self).nodes@.len() ==> mapped_targets(
                old(self).nodes@[i].kind,
                #[trigger] final(self).nodes@[i].kind,
                f,
            ),
    {
        self.id = f(self.id);
        let ghost start = self.nodes@;
        let mut i: usize = 0;
        while i < self.nodes.len()
            invariant
                forall|x: usize| f.requires((x,)),
                f.ensures((old(self).id,), self.id),
                start == old(self).nodes@,
                i <= self.nodes.len(),
                self.nodes@.len() == start.len(),
                forall|j: int| i <= j < start.len() ==> self.nodes@[j] == start[j],
                forall|j: int| 0 <= j < i ==> mapped_targets(start[j].kind, #[trigger] self.nodes@[j].kind, f),
            decreases self.nodes.len() - i,
        {
            let mut node = self.nodes.remove(i);
            let ghost before = node.kind;
            if let IRNodeKind::Branch { condition, true_branch, false_branch } = node.kind {
                let tb = match true_branch {
                    Some(t) => Some(f(t)),
                    None => None,
                };
                let fb = match false_branch {
                    Some(t) => Some(f(t)),
                    None => None,
                };
                node = IRNode { kind: IRNodeKind::Branch { condition, true_branch: tb, false_branch: fb } };
            }
            self.nodes.insert(i, node);
            i += 1;
        }
    }

    /// Replaces every register operand by what `f` gives for it.
    pub fn map_register_to_value<F: Fn(VirtualRegister) -> IRValue>(&mut self, f: F)
        requires
            forall|x: VirtualRegister| f.requires((x,)),
        ensures
            final(self).id == old(self).id,
            final(self).nodes@.len() == old(self).nodes@.len(),
            forall|i: int| 0 <= i < old(self).nodes@.len() ==> mapped_registers(
                old(self).nodes@[i].kind,
                #[trigger] final(self).nodes@[i].kind,
                f,
            ),
    {
        let ghost start = self.nodes@;
        let mut i: usize = 0;
        while i < self.nodes.len()
            invariant
                forall|x: VirtualRegister| f.requires((x,)),
                i <= self.nodes.len(),
                self.id == old(self).id,
                start == old(self).nodes@,
                self.nodes@.len() == start.len(),
                forall|j: int| i <= j < start.len() ==> self.nodes@[j] == start[j],
                forall|j: int| 0 <= j < i ==> mapped_registers(start[j].kind, #[trigger] self.nodes@[j].kind, f),
            decreases self.nodes.len() - i,
        {
            let node = self.nodes.remove(i);
            let kind = match node.kind {
                IRNodeKind::Assign { variable, value } => IRNodeKind::Assign {
                    variable,
                    value: map_value(value, &f),
                },
                IRNodeKind::AddressAssignment { address, value } => IRNodeKind::AddressAssignment {
                    address: map_value(address, &f),
                    value: map_value(value, &f),
                },
                IRNodeKind::Lea { base, index, scaler, result } => IRNodeKind::Lea {
                    base: map_value(base, &f),
                    index,
                    scaler,
                    result,
                },
                IRNodeKind::BinaryOp { op, left, right, result, optional_result } => IRNodeKind::BinaryOp {
                    op,
                    left: map_value(left, &f),
                    right: map_value(right, &f),
                    result,
                    optional_result,
                },
                IRNodeKind::UnaryOp { op, operand, result } => IRNodeKind::UnaryOp {
                    op,
                    operand: map_value(operand, &f),
                    result,
                },
                IRNodeKind::FunctionCall { name, arguments, argument_regs, result } => {
                    let mut mapped: Vec<IRValue> = Vec::new();
                    let mut args = arguments;
                    let ghost original = args@;
                    let mut k: usize = 0;
                    while args.len() > 0
                        invariant
                            forall|x: VirtualRegister| f.requires((x,)),
                            mapped@.len() + args@.len() == original.len(),
                            args@ == original.subrange(mapped@.len() as int, original.len() as int),
                            forall|j: int| 0 <= j < mapped@.len() ==> value_mapped(original[j], #[trigger] mapped@[j], f),
                        decreases args.len(),
                    {
                        let a = args.remove(0);
                        let ghost idx = mapped@.len();
                        proof {
                            assert(a == original[idx as int]);
                        }
                        mapped.push(map_value(a, &f));
                        proof {
                            assert(args@ =~= original.subrange(mapped@.len() as int, original.len() as int));
                        }
                    }
                    IRNodeKind::FunctionCall { name, arguments: mapped, argument_regs, result }
                },
                IRNodeKind::Branch { condition, true_branch, false_branch } => IRNodeKind::Branch {
                    condition: match condition {
                        Some(c) => Some(map_value(c, &f)),
                        None => None,
                    },
                    true_branch,
                    false_branch,
                },
                IRNodeKind::Return { value } => IRNodeKind::Return {
                    value: match value {
                        Some(v) => Some(map_value(v, &f)),
                        None => None,
                    },
                },
                other => other,
            };
            self.nodes.insert(i, IRNode { kind });
            i += 1;
        }
    }
}

/// `after` is `before` with its jump targets renamed by `f`.
pub open spec fn mapped_targets<F: Fn(usize) -> usize>(
    before: IRNodeKind,
    after: IRNodeKind,
    f: F,
) -> bool {
    match before {
        IRNodeKind::Branch { condition, true_branch, false_branch } => match after {
            IRNodeKind::Branch { condition: c2, true_branch: t2, false_branch: f2 } => {
                &&& c2 == condition
                &&& (true_branch matches Some(t) ==> t2 matches Some(u) && f.ensures((t,), u))
                &&& (true_branch is None ==> t2 is None)
                &&& (false_branch matches Some(t) ==> f2 matches Some(u) && f.ensures((t,), u))
                &&& (false_branch is None ==> f2 is None)
            },
            _ => false,
        },
        _ => after == before,
    }
}

/// `after` is `before` with its id and every jump target renamed by `f`, as
/// [`IRBlock::map_block_ids`] leaves it.
pub open spec fn block_renamed<F: Fn(usize) -> usize>(before: IRBlock, after: IRBlock, f: F) -> bool {
    &&& f.ensures((before.id,), after.id)
    &&& after.nodes@.len() == before.nodes@.len()
    &&& forall|i: int| 0 <= i < before.nodes@.len() ==> mapped_targets(before.nodes@[i].kind, #[trigger] after.nodes@[i].kind, f)
}

/// Renaming block ids with a function that answers each id with itself
/// leaves the block as it was.
pub proof fn lemma_rename_identity<F: Fn(usize) -> usize>(before: IRBlock, after: IRBlock, f: F)
    requires
        block_renamed(before, after, f),
        forall|x: usize, y: usize| #[trigger] f.ensures((x,), y) ==> y == x,
    ensures
        after.id == before.id,
        after.nodes@ == before.nodes@,
{
    assert forall|i: int| 0 <= i < before.nodes@.len() implies #[trigger] after.nodes@[i] == before.nodes@[i] by {
        let k0 = before.nodes@[i].kind;
        let k1 = after.nodes@[i].kind;
        assert(mapped_targets(k0, k1, f));
        match k0 {
            IRNodeKind::Branch { condition, true_branch, false_branch } => {
                if let Some(t) = true_branch {
                    assert(f.ensures((t,), k1->true_branch->0));
                }
                if let Some(t) = false_branch {
                    assert(f.ensures((t,), k1->false_branch->0));
                }
            },
            _ => {},
        }
    }
    assert(after.nodes@ =~= before.nodes@);
}

/// Renaming with `f` and then with `g` is renaming with any `h` that
/// answers what `g` answers for what `f` answers.
pub proof fn lemma_rename_compose<F: Fn(usize) -> usize, G: Fn(usize) -> usize, H: Fn(usize) -> usize>(
    a: IRBlock,
    b: IRBlock,
    c: IRBlock,
    f: F,
    g: G,
    h: H,
)
    requires
        block_renamed(a, b, f),
        block_renamed(b, c, g),
        forall|x: usize, y: usize, z: usize| #[trigger] f.ensures((x,), y) && #[trigger] g.ensures((y,), z) ==> h.ensures((x,), z),
    ensures
        block_renamed(a, c, h),
{
    assert forall|i: int| 0 <= i < a.nodes@.len() implies mapped_targets(a.nodes@[i].kind, #[trigger] c.nodes@[i].kind, h) by {
        let k0 = a.nodes@[i].kind;
        let k1 = b.nodes@[i].kind;
        let k2 = c.nodes@[i].kind;
        assert(mapped_targets(k0, k1, f));
        assert(mapped_targets(k1, k2, g));
        match k0 {
            IRNodeKind::Branch { condition, true_branch, false_branch } => {
                if let Some(t) = true_branch {
                    let y = k1->true_branch->0;
                    assert(f.ensures((t,), y));
                    assert(g.ensures((y,), k2->true_branch->0));
                }
                if let Some(t) = false_branch {
                    let y = k1->false_branch->0;
                    assert(f.ensures((t,), y));
                    assert(g.ensures((y,), k2->false_branch->0));
                }
            },
            _ => {},
        }
    }
}

/// A register operand became what `f` gives for it; other operands stay.
pub open spec fn value_mapped<F: Fn(VirtualRegister) -> IRValue>(
    before: IRValue,
    after: IRValue,
    f: F,
) -> bool {
    match before {
        IRValue::Register(r) => f.ensures((r,), after),
        _ => after == before,
    }
}

pub open spec fn option_mapped<F: Fn(VirtualRegister) -> IRValue>(
    before: Option<IRValue>,
    after: Option<IRValue>,
    f: F,
) -> bool {
    match before {
        Some(b) => after matches Some(a) && value_mapped(b, a, f),
        None => after is None,
    }
}

/// `after` is `before` with every operand mapped by [`value_mapped`].
pub open spec fn mapped_registers<F: Fn(VirtualRegister) -> IRValue>(
    before: IRNodeKind,
    after: IRNodeKind,
    f: F,
) -> bool {
    match before {
        IRNodeKind::Assign { variable, value } => after matches IRNodeKind::Assign {
            variable: v2,
            value: x2,
        } && v2 == variable && value_mapped(value, x2, f),
        IRNodeKind::AddressAssignment { address, value } => after matches IRNodeKind::AddressAssignment {
            address: a2,
            value: x2,
        } && value_mapped(address, a2, f) && value_mapped(value, x2, f),
        IRNodeKind::Lea { base, index, scaler, result } => after matches IRNodeKind::Lea {
            base: b2,
            index: i2,
            scaler: s2,
            result: r2,
        } && value_mapped(base, b2, f) && i2 == index && s2 == scaler && r2 == result,
        IRNodeKind::BinaryOp { op, left, right, result, optional_result } => after matches IRNodeKind::BinaryOp {
            op: o2,
            left: l2,
            right: x2,
            result: r2,
            optional_result: p2,
        } && o2 == op && value_mapped(left, l2, f) && value_mapped(right, x2, f) && r2 == result
            && p2 == optional_result,
        IRNodeKind::UnaryOp { op, operand, result } => after matches IRNodeKind::UnaryOp {
            op: o2,
            operand: x2,
            result: r2,
        } && o2 == op && value_mapped(operand, x2, f) && r2 == result,
        IRNodeKind::FunctionCall { name, arguments, argument_regs, result } => after matches IRNodeKind::FunctionCall {
            name: n2,
            arguments: a2,
            argument_regs: g2,
            result: r2,
        } && n2 == name && g2 == argument_regs && r2 == result && a2@.len() == arguments@.len()
            && forall|j: int| 0 <= j < arguments@.len() ==> value_mapped(arguments@[j], #[trigger] a2@[j], f),
        IRNodeKind::Branch { condition, true_branch, false_branch } => after matches IRNodeKind::Branch {
            condition: c2,
            true_branch: t2,
            false_branch: f2,
        } && option_mapped(condition, c2, f) && t2 == true_branch && f2 == false_branch,
        IRNodeKind::Return { value } => after matches IRNodeKind::Return { value: v2 }
            && option_mapped(value, v2, f),
        _ => after == before,
    }
}

fn map_value<F: Fn(VirtualRegister) -> IRValue>(value: IRValue, f: &F) -> (r: IRValue)
    requires
        forall|x: VirtualRegister| f.requires((x,)),
    ensures
        value_mapped(value, r, *f),
{
    match value {
        IRValue::Register(reg) => f(reg),
        other => other,
    }
}

impl IRValue {
    pub open spec fn spec_is_constant(&self) -> bool {
        *self is Immediate || *self is StringLiteral
    }

    /// Immediates and string literals.
    pub fn is_constant(&self) -> (r: bool)
        ensures
            r == self.spec_is_constant(),
    {
        matches!(self, IRValue::Immediate(_) | IRValue::StringLiteral { .. })
    }

    pub open spec fn spec_immediate(&self) -> Option<i64> {
        match *self {
            IRValue::Immediate(v) => Some(v),
            _ => None,
        }
    }

    pub fn get_immediate(&self) -> (r: Option<i64>)
        ensures
            r == self.spec_immediate(),
    {
        match self {
            IRValue::Immediate(value) => Some(*value),
            _ => None,
        }
    }

    pub open spec fn spec_register(&self) -> Option<VirtualRegister> {
        match *self {
            IRValue::Register(reg) => Some(reg),
            IRValue::StringLiteral { reg, .. } => Some(reg),
            _ => None,
        }
    }

    /// The register a value lives in: its own register, or the register a
    /// string literal's address is loaded into.
    pub fn get_register(&self) -> (r: Option<VirtualRegister>)
        ensures
            r == self.spec_register(),
    {
        match self {
            IRValue::Register(reg) => Some(*reg),
            IRValue::StringLiteral { reg, .. } => Some(*reg),
            _ => None,
        }
    }
}

impl IRString {
    /// The assembler label of the string: `.str.` and its id.
    pub fn label(&self) -> (r: String)
        ensures
            r@ == ".str."@ + decimal(self.id as nat),
    {
        let mut s = String::new();
        push_str(&mut s, ".str.");
        let digits = usize_to_text(self.id);
        push_str(&mut s, digits.as_str());
        s
    }
}

impl IRVariable {
    pub open spec fn spec_register(&self) -> Option<VirtualRegister> {
        match *self {
            IRVariable::Register(reg) => Some(reg),
            IRVariable::Global(_) => None,
        }
    }

    pub fn get_register(&self) -> (r: Option<VirtualRegister>)
        ensures
            r == self.spec_register(),
    {
        match self {
            IRVariable::Global(_) => None,
            IRVariable::Register(reg) => Some(*reg),
        }
    }
}

} // verus!

verus! {

/// The first position holding `id`.
fn position_of(ids: &Vec<usize>, id: usize) -> (r: usize)
    requires
        exists|i: int| 0 <= i < ids@.len() && ids@[i] == id,
    ensures
        r < ids@.len(),
        ids@[r as int] == id,
{
    let mut i: usize = 0;
    while i < ids.len()
        invariant
            i <= ids.len(),
            forall|j: int| 0 <= j < i ==> ids@[j] != id,
            exists|j: int| 0 <= j < ids@.len() && ids@[j] == id,
        decreases ids.len() - i,
    {
        if ids[i] == id {
            return i;
        }
        i += 1;
    }
    i
}

fn contains_id(v: &Vec<usize>, id: usize) -> (r: bool)
    ensures
        r == v@.contains(id),
{
    let mut i: usize = 0;
    while i < v.len()
        invariant
            i <= v.len(),
            forall|j: int| 0 <= j < i ==> v@[j] != id,
        decreases v.len() - i,
    {
        if v[i] == id {
            return true;
        }
        i += 1;
    }
    false
}

/// A jump target `t` of `before` was renumbered to the position of `t`.
/// The nodes end with a branch or a return.
pub open spec fn ends_with_goto(nodes: Seq<IRNode>) -> bool {
    nodes.len() > 0 && nodes.last().spec_is_goto()
}

/// Blocks as their ids and nodes.
pub open spec fn blocks_view(bs: Seq<IRBlock>) -> Seq<(usize, Seq<IRNode>)> {
    bs.map_values(|b: IRBlock| (b.id, b.nodes@))
}

/// The blocks that compaction keeps, in body order, as ids and nodes: a
/// block that is empty and that no branch of `all` targets is dropped; a
/// block that no branch targets and whose predecessor in the result does not
/// end with a branch or a return is appended to that predecessor; any other
/// block is kept.
pub open spec fn merged_blocks(all: Seq<IRBlock>, body: Seq<IRBlock>) -> Seq<(usize, Seq<IRNode>)>
    decreases body.len(),
{
    if body.len() == 0 {
        Seq::empty()
    } else {
        let m = merged_blocks(all, body.drop_last());
        let b = body.last();
        if b.nodes@.len() == 0 && !referenced(all, b.id) {
            m
        } else if !referenced(all, b.id) && m.len() > 0 && !ends_with_goto(m.last().1) {
            m.update(m.len() - 1, (m.last().0, m.last().1 + b.nodes@))
        } else {
            m.push((b.id, b.nodes@))
        }
    }
}

/// `after` is `before` compacted: the blocks of [`merged_blocks`], numbered
/// by position, with branch targets renamed to the new numbers.
pub open spec fn compacted(before: Seq<IRBlock>, after: Seq<IRBlock>) -> bool {
    let m = merged_blocks(before, before);
    &&& after.len() == m.len()
    &&& forall|b: int| 0 <= b < m.len() ==> {
        let y = #[trigger] after[b];
        &&& y.id == b
        &&& y.nodes@.len() == m[b].1.len()
        &&& forall|n: int| 0 <= n < m[b].1.len() ==> renumbered(
            m[b].1[n].kind,
            #[trigger] y.nodes@[n].kind,
            m.map_values(|e: (usize, Seq<IRNode>)| e.0),
        )
    }
}

/// A branch node with its targets renamed to their positions in `ids`; any
/// other node unchanged.
pub open spec fn renumbered(before: IRNodeKind, after: IRNodeKind, ids: Seq<usize>) -> bool {
    match before {
        IRNodeKind::Branch { condition, true_branch, false_branch } => match after {
            IRNodeKind::Branch { condition: c2, true_branch: t2, false_branch: f2 } => {
                &&& c2 == condition
                &&& (true_branch matches Some(t) ==> t2 matches Some(u) && u < ids.len() && ids[u as int] == t)
                &&& (true_branch is None ==> t2 is None)
                &&& (false_branch matches Some(t) ==> f2 matches Some(u) && u < ids.len() && ids[u as int] == t)
                &&& (false_branch is None ==> f2 is None)
            },
            _ => false,
        },
        _ => after == before,
    }
}

proof fn lemma_referenced_witness(body: Seq<IRBlock>, t: usize) -> (bn: (int, int))
    requires
        referenced(body, t),
    ensures
        0 <= bn.0 < body.len(),
        0 <= bn.1 < body[bn.0].nodes@.len(),
        is_target(body[bn.0].nodes@[bn.1].kind, t),
{
    choose|b: int, n: int|
        0 <= b < body.len() && 0 <= n < body[b].nodes@.len() && #[trigger] is_target(
            body[b].nodes@[n].kind,
            t,
        )
}

proof fn lemma_push_contains(s: Seq<usize>, x: usize, t: usize)
    ensures
        s.push(x).contains(t) <==> (s.contains(t) || x == t),
{
    if s.contains(t) {
        let i = choose|i: int| 0 <= i < s.len() && s[i] == t;
        assert(s.push(x)[i] == t);
    }
    if x == t {
        assert(s.push(x)[s.len() as int] == t);
    }
    if s.push(x).contains(t) {
        let i = choose|i: int| 0 <= i < s.push(x).len() && s.push(x)[i] == t;
        if i < s.len() {
            assert(s[i] == t);
        }
    }
}

/// Node `(bb, m)` comes before position `(b, n)` in reading order.
pub open spec fn visited(bb: int, m: int, b: int, n: int) -> bool {
    bb < b || (bb == b && m < n)
}

impl IRFunction {
    /// All jump targets of the body, in order of appearance.
    fn get_references(&self) -> (r: Vec<usize>)
        ensures
            forall|t: usize| r@.contains(t) <==> referenced(self.body@, t),
    {
        let ghost body = self.body@;
        let mut refs: Vec<usize> = Vec::new();
        let mut b: usize = 0;
        while b < self.body.len()
            invariant
                b <= self.body.len(),
                body == self.body@,
                forall|t: usize|
                    refs@.contains(t) <==> exists|bb: int, m: int|
                        0 <= bb < body.len() && 0 <= m < body[bb].nodes@.len() && visited(bb, m, b as int, 0)
                            && #[trigger] is_target(body[bb].nodes@[m].kind, t),
            decreases self.body.len() - b,
        {
            let block = &self.body[b];
            let mut n: usize = 0;
            while n < block.nodes.len()
                invariant
                    b < self.body.len(),
                    body == self.body@,
                    *block == body[b as int],
                    n <= block.nodes.len(),
                    forall|t: usize|
                        refs@.contains(t) <==> exists|bb: int, m: int|
                            0 <= bb < body.len() && 0 <= m < body[bb].nodes@.len() && visited(bb, m, b as int, n as int)
                                && #[trigger] is_target(body[bb].nodes@[m].kind, t),
                decreases block.nodes.len() - n,
            {
                let ghost before = refs@;
                let ghost kind = block.nodes@[n as int].kind;
                if let IRNodeKind::Branch { true_branch, false_branch, .. } = &block.nodes[n].kind {
                    if let Some(t) = true_branch {
                        proof {
                            lemma_push_contains(refs@, *t, *t);
                        }
                        refs.push(*t);
                    }
                    let ghost mid = refs@;
                    if let Some(t) = false_branch {
                        refs.push(*t);
                    }
                    proof {
                        assert forall|t: usize| refs@.contains(t) <==> (before.contains(t) || is_target(kind, t)) by {
                            match true_branch {
                                Some(x) => lemma_push_contains(before, *x, t),
                                None => {},
                            }
                            match false_branch {
                                Some(x) => lemma_push_contains(mid, *x, t),
                                None => {},
                            }
                        }
                    }
                }
                proof {
                    assert forall|t: usize|
                        refs@.contains(t) <==> exists|bb: int, m: int|
                            0 <= bb < body.len() && 0 <= m < body[bb].nodes@.len() && visited(bb, m, b as int, n + 1)
                                && #[trigger] is_target(body[bb].nodes@[m].kind, t) by {
                        if refs@.contains(t) {
                            if !before.contains(t) {
                                assert(is_target(body[b as int].nodes@[n as int].kind, t));
                            } else {
                                let (bb, m) = choose|bb: int, m: int|
                                    0 <= bb < body.len() && 0 <= m < body[bb].nodes@.len() && visited(bb, m, b as int, n as int)
                                        && #[trigger] is_target(body[bb].nodes@[m].kind, t);
                                assert(visited(bb, m, b as int, n + 1));
                            }
                        }
                        if exists|bb: int, m: int|
                            0 <= bb < body.len() && 0 <= m < body[bb].nodes@.len() && visited(bb, m, b as int, n + 1)
                                && #[trigger] is_target(body[bb].nodes@[m].kind, t) {
                            let (bb, m) = choose|bb: int, m: int|
                                0 <= bb < body.len() && 0 <= m < body[bb].nodes@.len() && visited(bb, m, b as int, n + 1)
                                    && #[trigger] is_target(body[bb].nodes@[m].kind, t);
                            if !(bb == b && m == n) {
                                assert(visited(bb, m, b as int, n as int));
                                assert(before.contains(t));
                            }
                        }
                    }
                }
                n += 1;
            }
            proof {
                assert forall|t: usize|
                    refs@.contains(t) <==> exists|bb: int, m: int|
                        0 <= bb < body.len() && 0 <= m < body[bb].nodes@.len() && visited(bb, m, b + 1, 0)
                            && #[trigger] is_target(body[bb].nodes@[m].kind, t) by {
                    if refs@.contains(t) {
                        let (bb, m) = choose|bb: int, m: int|
                            0 <= bb < body.len() && 0 <= m < body[bb].nodes@.len() && visited(bb, m, b as int, n as int)
                                && #[trigger] is_target(body[bb].nodes@[m].kind, t);
                        assert(visited(bb, m, b + 1, 0));
                    }
                    if exists|bb: int, m: int|
                        0 <= bb < body.len() && 0 <= m < body[bb].nodes@.len() && visited(bb, m, b + 1, 0)
                            && #[trigger] is_target(body[bb].nodes@[m].kind, t) {
                        let (bb, m) = choose|bb: int, m: int|
                            0 <= bb < body.len() && 0 <= m < body[bb].nodes@.len() && visited(bb, m, b + 1, 0)
                                && #[trigger] is_target(body[bb].nodes@[m].kind, t);
                        assert(visited(bb, m, b as int, n as int));
                    }
                }
            }
            b += 1;
        }
        proof {
            assert forall|t: usize| refs@.contains(t) <==> referenced(body, t) by {
                if referenced(body, t) {
                    let (bb, m) = lemma_referenced_witness(body, t);
                    assert(visited(bb, m, b as int, 0));
                }
            }
        }
        refs
    }
}


impl IRFunction {
    /// Renumbers the blocks by position and redirects every jump to the new
    /// number of its target.
    fn update_block_ids(&mut self)
        requires
            body_wf(old(self).body@),
        ensures
            ids_are_positions(final(self).body@),
            targets_closed(final(self).body@),
            final(self).name == old(self).name,
            final(self).parameters == old(self).parameters,
            final(self).parameter_regs == old(self).parameter_regs,
            final(self).body@.len() == old(self).body@.len(),
            forall|b: int| 0 <= b < old(self).body@.len() ==> {
                let x = old(self).body@[b];
                let y = #[trigger] final(self).body@[b];
                &&& y.nodes@.len() == x.nodes@.len()
                &&& forall|n: int| 0 <= n < x.nodes@.len() ==> renumbered(
                    x.nodes@[n].kind,
                    #[trigger] y.nodes@[n].kind,
                    old(self).body@.map_values(|blk: IRBlock| blk.id),
                )
            },
    {
        let ghost old_body = self.body@;
        let ghost ids_spec = old_body.map_values(|blk: IRBlock| blk.id);
        let mut ids: Vec<usize> = Vec::new();
        let mut b: usize = 0;
        while b < self.body.len()
            invariant
                b <= self.body.len(),
                self.body@ == old_body,
                ids_spec == old_body.map_values(|blk: IRBlock| blk.id),
                ids@ == ids_spec.subrange(0, b as int),
            decreases self.body.len() - b,
        {
            ids.push(self.body[b].id);
            b += 1;
            proof {
                assert(ids@ =~= ids_spec.subrange(0, b as int));
            }
        }
        proof {
            assert(ids@ =~= ids_spec);
        }
        let mut i: usize = 0;
        while i < self.body.len()
            invariant
                i <= self.body.len(),
                ids@ == ids_spec,
                ids_spec == old_body.map_values(|blk: IRBlock| blk.id),
                body_wf(old_body),
                self.name == old(self).name,
                self.parameters == old(self).parameters,
                self.parameter_regs == old(self).parameter_regs,
                self.body@.len() == old_body.len(),
                forall|j: int| i <= j < old_body.len() ==> self.body@[j] == old_body[j],
                forall|j: int| 0 <= j < i ==> (#[trigger] self.body@[j]).id == j,
                forall|j: int| 0 <= j < i ==> {
                    let x = old_body[j];
                    let y = #[trigger] self.body@[j];
                    &&& y.nodes@.len() == x.nodes@.len()
                    &&& forall|n: int| 0 <= n < x.nodes@.len() ==> renumbered(
                        x.nodes@[n].kind,
                        #[trigger] y.nodes@[n].kind,
                        ids_spec,
                    )
                },
            decreases self.body.len() - i,
        {
            let mut block = self.body.remove(i);
            let ghost x = old_body[i as int];
            proof {
                assert(block == x);
            }
            block.id = i;
            let mut n: usize = 0;
            while n < block.nodes.len()
                invariant
                    n <= block.nodes.len(),
                    i < old_body.len(),
                    x == old_body[i as int],
                    ids@ == ids_spec,
                    ids_spec == old_body.map_values(|blk: IRBlock| blk.id),
                    body_wf(old_body),
                    block.id == i,
                    block.nodes@.len() == x.nodes@.len(),
                    forall|m: int| n <= m < x.nodes@.len() ==> block.nodes@[m] == x.nodes@[m],
                    forall|m: int| 0 <= m < n ==> renumbered(x.nodes@[m].kind, #[trigger] block.nodes@[m].kind, ids_spec),
                decreases block.nodes.len() - n,
            {
                let node = block.nodes.remove(n);
                let kind = match node.kind {
                    IRNodeKind::Branch { condition, true_branch, false_branch } => {
                        let tb = match true_branch {
                            Some(t) => {
                                proof {
                                    assert(is_target(x.nodes@[n as int].kind, t));
                                    assert(referenced(old_body, t));
                                    let k = choose|k: int| 0 <= k < old_body.len() && #[trigger] old_body[k].id == t;
                                    assert(ids@[k] == t);
                                }
                                Some(position_of(&ids, t))
                            },
                            None => None,
                        };
                        let fb = match false_branch {
                            Some(t) => {
                                proof {
                                    assert(is_target(x.nodes@[n as int].kind, t));
                                    assert(referenced(old_body, t));
                                    let k = choose|k: int| 0 <= k < old_body.len() && #[trigger] old_body[k].id == t;
                                    assert(ids@[k] == t);
                                }
                                Some(position_of(&ids, t))
                            },
                            None => None,
                        };
                        IRNodeKind::Branch { condition, true_branch: tb, false_branch: fb }
                    },
                    other => other,
                };
                block.nodes.insert(n, IRNode { kind });
                n += 1;
            }
            self.body.insert(i, block);
            i += 1;
        }
        proof {
            let body = self.body@;
            assert forall|t: usize| #[trigger] referenced(body, t) implies has_block(body, t) by {
                let (bb, m) = lemma_referenced_witness(body, t);
                let xk = old_body[bb].nodes@[m].kind;
                assert(renumbered(xk, body[bb].nodes@[m].kind, ids_spec));
                assert(t < body.len());
                assert(body[t as int].id == t);
            }
        }
    }

    /// Drops empty blocks that nothing jumps to, merges each block that
    /// nothing jumps to into a preceding block that falls through, and
    /// renumbers the blocks by position.
    pub fn compact(&mut self)
        requires
            body_wf(old(self).body@),
        ensures
            body_wf(final(self).body@),
            ids_are_positions(final(self).body@),
            final(self).name == old(self).name,
            final(self).parameters == old(self).parameters,
            final(self).parameter_regs == old(self).parameter_regs,
            entry_kept(old(self).body@, final(self).body@),
            compacted(old(self).body@, final(self).body@),
    {
        let references = self.get_references();
        let ghost old_body = self.body@;
        let mut rest: Vec<IRBlock> = Vec::new();
        std::mem::swap(&mut rest, &mut self.body);
        let mut merged: Vec<IRBlock> = Vec::new();
        let ghost mut k: int = 0;
        while rest.len() > 0
            invariant
                0 <= k <= old_body.len(),
                rest@ == old_body.subrange(k, old_body.len() as int),
                body_wf(old_body),
                forall|t: usize| references@.contains(t) <==> referenced(old_body, t),
                forall|m: int| 0 <= m < merged@.len() ==> exists|j: int|
                    0 <= j < k && #[trigger] old_body[j].id == (#[trigger] merged@[m]).id,
                ids_unique(merged@),
                forall|j: int| 0 <= j < k && referenced(old_body, (#[trigger] old_body[j]).id) ==> has_block(merged@, old_body[j].id),
                forall|t: usize| #[trigger] referenced(merged@, t) ==> referenced(old_body, t),
                k > 0 ==> entry_kept(old_body, merged@),
                blocks_view(merged@) == merged_blocks(old_body, old_body.subrange(0, k)),
            decreases rest.len(),
        {
            let mut program = rest.remove(0);
            proof {
                assert(program == old_body[k]);
                assert(old_body.subrange(0, k + 1).drop_last() =~= old_body.subrange(0, k));
                assert(old_body.subrange(0, k + 1).last() == old_body[k]);
            }
            let is_referenced = contains_id(&references, program.id);
            if program.nodes.len() == 0 && !is_referenced {
                proof {
                    k = k + 1;
                    assert(rest@ =~= old_body.subrange(k, old_body.len() as int));
                }
                continue;
            }
            let ghost before = merged@;
            if !is_referenced && merged.len() > 0 && !merged[merged.len() - 1].is_goto() {
                let mut last = merged.pop().unwrap();
                let ghost last_before = last;
                last.nodes.append(&mut program.nodes);
                merged.push(last);
                proof {
                    assert(blocks_view(merged@) =~= blocks_view(before).update(
                        before.len() - 1,
                        (blocks_view(before).last().0, blocks_view(before).last().1 + old_body[k].nodes@),
                    ));
                    assert forall|m: int| 0 <= m < merged@.len() implies exists|j: int|
                        0 <= j < k + 1 && #[trigger] old_body[j].id == (#[trigger] merged@[m]).id by {
                        assert(merged@[m].id == before[m].id);
                    }
                    assert forall|i: int, j: int|
                        0 <= i < merged@.len() && 0 <= j < merged@.len() && #[trigger] merged@[i].id
                            == #[trigger] merged@[j].id implies i == j by {
                        assert(merged@[i].id == before[i].id);
                        assert(merged@[j].id == before[j].id);
                    }
                    assert forall|j: int| 0 <= j < k + 1 && referenced(old_body, (#[trigger] old_body[j]).id) implies has_block(merged@, old_body[j].id) by {
                        if j < k {
                            let w = choose|w: int| 0 <= w < before.len() && #[trigger] before[w].id == old_body[j].id;
                            assert(merged@[w].id == before[w].id);
                        }
                    }
                    assert forall|t: usize| #[trigger] referenced(merged@, t) implies referenced(old_body, t) by {
                        let (bb, m) = lemma_referenced_witness(merged@, t);
                        if bb < merged@.len() - 1 {
                            assert(merged@[bb] == before[bb]);
                            assert(is_target(before[bb].nodes@[m].kind, t));
                            assert(referenced(before, t));
                        } else if m < last_before.nodes@.len() {
                            assert(merged@[bb].nodes@[m] == last_before.nodes@[m]);
                            assert(is_target(before[bb].nodes@[m].kind, t));
                            assert(referenced(before, t));
                        } else {
                            let m2 = m - last_before.nodes@.len();
                            assert(merged@[bb].nodes@[m] == old_body[k].nodes@[m2]);
                            assert(is_target(old_body[k].nodes@[m2].kind, t));
                        }
                    }
                }
            } else {
                merged.push(program);
                proof {
                    assert(blocks_view(merged@) =~= blocks_view(before).push((old_body[k].id, old_body[k].nodes@)));
                    assert forall|m: int| 0 <= m < merged@.len() implies exists|j: int|
                        0 <= j < k + 1 && #[trigger] old_body[j].id == (#[trigger] merged@[m]).id by {
                        if m < before.len() {
                            assert(merged@[m] == before[m]);
                        } else {
                            assert(old_body[k].id == merged@[m].id);
                        }
                    }
                    assert forall|i: int, j: int|
                        0 <= i < merged@.len() && 0 <= j < merged@.len() && #[trigger] merged@[i].id
                            == #[trigger] merged@[j].id implies i == j by {
                        if i < before.len() && j == before.len() {
                            let w = choose|w: int| 0 <= w < k && #[trigger] old_body[w].id == before[i].id;
                            assert(old_body[w].id == old_body[k].id);
                        }
                        if j < before.len() && i == before.len() {
                            let w = choose|w: int| 0 <= w < k && #[trigger] old_body[w].id == before[j].id;
                            assert(old_body[w].id == old_body[k].id);
                        }
                    }
                    assert forall|j: int| 0 <= j < k + 1 && referenced(old_body, (#[trigger] old_body[j]).id) implies has_block(merged@, old_body[j].id) by {
                        if j < k {
                            let w = choose|w: int| 0 <= w < before.len() && #[trigger] before[w].id == old_body[j].id;
                            assert(merged@[w] == before[w]);
                        } else {
                            assert(merged@[before.len() as int].id == old_body[j].id);
                        }
                    }
                    assert forall|t: usize| #[trigger] referenced(merged@, t) implies referenced(old_body, t) by {
                        let (bb, m) = lemma_referenced_witness(merged@, t);
                        if bb < before.len() {
                            assert(merged@[bb] == before[bb]);
                            assert(is_target(before[bb].nodes@[m].kind, t));
                            assert(referenced(before, t));
                        } else {
                            assert(is_target(old_body[k].nodes@[m].kind, t));
                        }
                    }
                    if k > 0 && old_body[0].nodes@.len() > 0 {
                        assert(before.len() > 0);
                        assert(merged@[0] == before[0]);
                    }
                }
            }
            proof {
                k = k + 1;
                assert(rest@ =~= old_body.subrange(k, old_body.len() as int));
            }
        }
        proof {
            assert(k == old_body.len());
            assert forall|t: usize| #[trigger] referenced(merged@, t) implies has_block(merged@, t) by {
                assert(referenced(old_body, t));
                let j = choose|j: int| 0 <= j < old_body.len() && #[trigger] old_body[j].id == t;
                assert(referenced(old_body, old_body[j].id));
            }
        }
        let ghost mv = merged@;
        proof {
            assert(old_body.subrange(0, k) =~= old_body);
            let m = merged_blocks(old_body, old_body);
            assert(m.map_values(|e: (usize, Seq<IRNode>)| e.0) =~= mv.map_values(|blk: IRBlock| blk.id)) by {
                assert forall|i: int| 0 <= i < m.len() implies m[i].0 == mv[i].id by {
                    assert(blocks_view(mv)[i] == (mv[i].id, mv[i].nodes@));
                }
            }
        }
        self.body = merged;
        self.update_block_ids();
        proof {
            lemma_positions_unique(self.body@);
            let m = merged_blocks(old_body, old_body);
            assert forall|b: int| 0 <= b < m.len() implies m[b].1 == mv[b].nodes@ by {
                assert(blocks_view(mv)[b] == (mv[b].id, mv[b].nodes@));
            }
        }
    }
}

} // verus!
