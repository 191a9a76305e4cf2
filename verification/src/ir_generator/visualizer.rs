//! Text forms of the IR, with virtual registers written as `%id` or, given
//! an allocation, as the names of their physical registers.
use vstd::prelude::*;
use crate::ir_generator::domain::{
    IRBinaryOp, IRBlock, IRFunction, IRModule, IRNode, IRNodeKind, IRString, IRUnaryOp, IRValue, IRVariable, VariableType,
};
use crate::register_allocator::assoc::lookup;
use crate::register_allocator::domain::{allocation_of, RegisterAllocation, RegisterAllocationFunction};
use crate::text::{debug_escaped, decimal, escape_debug, i64_to_text, push_str, signed_decimal, u64_to_text, usize_to_text};
use crate::virtual_register::VirtualRegister;

verus! {

/// `%` and the id.
pub open spec fn reg_plain(r: VirtualRegister) -> Seq<char> {
    seq!['%'] + decimal(r.id as nat)
}

/// A register under an allocation: the physical name when it has one.
pub open spec fn reg_text(alloc: Option<RegisterAllocationFunction>, r: VirtualRegister) -> Seq<char> {
    match alloc {
        Some(a) => match lookup(a.mapping@, r) {
            Some(p) => p.spec_name(),
            None => reg_plain(r),
        },
        None => reg_plain(r),
    }
}

pub open spec fn value_text(alloc: Option<RegisterAllocationFunction>, v: IRValue) -> Seq<char> {
    match v {
        IRValue::Register(r) => reg_text(alloc, r),
        IRValue::Immediate(x) => signed_decimal(x as int),
        IRValue::GlobalVariable(name) => "#"@ + name@,
        IRValue::StringLiteral { string, reg } => "\""@ + debug_escaped(string.value@) + "\" <- "@ + reg_text(alloc, reg),
    }
}

pub open spec fn variable_text(alloc: Option<RegisterAllocationFunction>, v: IRVariable) -> Seq<char> {
    match v {
        IRVariable::Register(r) => reg_text(alloc, r),
        IRVariable::Global(name) => "@"@ + name@,
    }
}

/// The `Display` form of a variable: `%id` or `@name`.
pub open spec fn variable_plain(v: IRVariable) -> Seq<char> {
    match v {
        IRVariable::Register(r) => reg_plain(r),
        IRVariable::Global(name) => "@"@ + name@,
    }
}

pub open spec fn binary_op_text(op: IRBinaryOp) -> Seq<char> {
    match op {
        IRBinaryOp::Add => "+"@,
        IRBinaryOp::Sub => "-"@,
        IRBinaryOp::Mul => "*"@,
        IRBinaryOp::Div => "/"@,
        IRBinaryOp::Eq => "=="@,
        IRBinaryOp::Less => "<"@,
        IRBinaryOp::BitAnd => "&"@,
        IRBinaryOp::BitOr => "|"@,
    }
}

pub open spec fn unary_op_text(op: IRUnaryOp) -> Seq<char> {
    match op {
        IRUnaryOp::Neg => "-"@,
        IRUnaryOp::Not => "!"@,
        IRUnaryOp::Address => "&"@,
        IRUnaryOp::Deref => "*"@,
    }
}

pub open spec fn target_text(t: Option<usize>) -> Seq<char> {
    match t {
        Some(b) => "p"@ + decimal(b as nat),
        None => "none"@,
    }
}

/// The arguments of a call: `value -> %reg`, separated by `, `.
pub open spec fn arguments_text(alloc: Option<RegisterAllocationFunction>, args: Seq<IRValue>, regs: Seq<VirtualRegister>) -> Seq<char>
    decreases args.len(),
{
    if args.len() == 0 {
        Seq::empty()
    } else {
        let item = value_text(alloc, args.last()) + " -> "@ + reg_plain(regs[args.len() - 1]);
        if args.len() == 1 {
            item
        } else {
            arguments_text(alloc, args.drop_last(), regs) + ", "@ + item
        }
    }
}

/// One node on one line (without the line break).
pub open spec fn node_text(alloc: Option<RegisterAllocationFunction>, k: IRNodeKind) -> Seq<char> {
    match k {
        IRNodeKind::NoOp => "nop"@,
        IRNodeKind::VariableDeclaration { reg } => "var "@ + reg_plain(reg),
        IRNodeKind::Assign { variable, value } => variable_text(alloc, variable) + " = "@ + value_text(alloc, value),
        IRNodeKind::AddressAssignment { address, value } => "("@ + value_text(alloc, address) + ") = "@ + value_text(alloc, value),
        IRNodeKind::Lea { base, index, scaler, result } => reg_text(alloc, result) + " = "@ + value_text(alloc, base) + " + "@
            + reg_text(alloc, index) + " * "@ + signed_decimal(scaler as int),
        IRNodeKind::Spill { reg, offset } => "spill "@ + reg_text(alloc, reg) + " to "@ + decimal(offset as nat),
        IRNodeKind::Unspill { reg, offset } => "unspill "@ + reg_text(alloc, reg) + " from "@ + decimal(offset as nat),
        IRNodeKind::BinaryOp { op, left, right, result, optional_result } => reg_text(alloc, result) + " = "@ + value_text(alloc, left)
            + " "@ + binary_op_text(op) + " "@ + value_text(alloc, right) + match optional_result {
            Some(r) => " ("@ + reg_plain(r) + ")"@,
            None => Seq::empty(),
        },
        IRNodeKind::UnaryOp { op, operand, result } => reg_text(alloc, result) + " = "@ + unary_op_text(op) + value_text(alloc, operand),
        IRNodeKind::FunctionCall { name, arguments, argument_regs, result } => match result {
            Some(res) => reg_plain(res) + " = call "@ + variable_plain(name) + "("@ + arguments_text(alloc, arguments@, argument_regs@)
                + ")"@,
            None => "call "@ + variable_plain(name) + "("@ + arguments_text(alloc, arguments@, argument_regs@) + ")"@,
        },
        IRNodeKind::Branch { condition, true_branch, false_branch } => match condition {
            Some(c) => "if "@ + value_text(alloc, c) + " goto "@ + target_text(true_branch) + " else goto "@ + target_text(false_branch),
            None => "goto "@ + target_text(true_branch),
        },
        IRNodeKind::Return { value } => match value {
            Some(v) => "return "@ + value_text(alloc, v),
            None => "return"@,
        },
    }
}

/// Calls name an argument register for every argument.
pub open spec fn node_printable(k: IRNodeKind) -> bool {
    match k {
        IRNodeKind::FunctionCall { arguments, argument_regs, .. } => arguments@.len() <= argument_regs@.len(),
        _ => true,
    }
}

pub open spec fn block_printable(b: IRBlock) -> bool {
    forall|n: int| 0 <= n < b.nodes@.len() ==> node_printable(#[trigger] b.nodes@[n].kind)
}

pub open spec fn function_printable(f: IRFunction) -> bool {
    forall|i: int| 0 <= i < f.body@.len() ==> block_printable(#[trigger] f.body@[i])
}

pub open spec fn nodes_text(alloc: Option<RegisterAllocationFunction>, nodes: Seq<IRNode>) -> Seq<char>
    decreases nodes.len(),
{
    if nodes.len() == 0 {
        Seq::empty()
    } else {
        nodes_text(alloc, nodes.drop_last()) + "  "@ + node_text(alloc, nodes.last().kind) + "\n"@
    }
}

/// A block: `p<id>:` and its nodes, indented, one per line.
pub open spec fn block_text(alloc: Option<RegisterAllocationFunction>, b: IRBlock) -> Seq<char> {
    "p"@ + decimal(b.id as nat) + ":\n"@ + nodes_text(alloc, b.nodes@)
}

pub open spec fn blocks_text(alloc: Option<RegisterAllocationFunction>, bs: Seq<IRBlock>) -> Seq<char>
    decreases bs.len(),
{
    if bs.len() == 0 {
        Seq::empty()
    } else {
        blocks_text(alloc, bs.drop_last()) + block_text(alloc, bs.last())
    }
}

/// The parameters: `param <- bound`, separated by `, `, as far as both lists go.
pub open spec fn params_text(alloc: Option<RegisterAllocationFunction>, ps: Seq<VirtualRegister>, rs: Seq<VirtualRegister>) -> Seq<char>
    decreases ps.len(),
{
    let n = if ps.len() < rs.len() { ps.len() } else { rs.len() };
    if n == 0 {
        Seq::empty()
    } else {
        let item = reg_text(alloc, ps[n - 1]) + " <- "@ + reg_text(alloc, rs[n - 1]);
        if n == 1 {
            item
        } else {
            params_text(alloc, ps.subrange(0, n - 1), rs.subrange(0, n - 1)) + ", "@ + item
        }
    }
}

pub open spec fn function_text(alloc: Option<RegisterAllocationFunction>, f: IRFunction) -> Seq<char> {
    "Function: "@ + f.name@ + " ("@ + params_text(alloc, f.parameters@, f.parameter_regs@) + ")\n"@ + blocks_text(alloc, f.body@)
}

pub open spec fn opt(alloc: Option<&RegisterAllocationFunction>) -> Option<RegisterAllocationFunction> {
    match alloc {
        Some(a) => Some(*a),
        None => None,
    }
}

fn push_reg(s: &mut String, alloc: Option<&RegisterAllocationFunction>, r: VirtualRegister)
    ensures
        final(s)@ == old(s)@ + reg_text(opt(alloc), r),
{
    if let Some(a) = alloc {
        if let Some(p) = a.get(&r) {
            push_str(s, p.name());
            return;
        }
    }
    let t = r.to_text();
    push_str(s, t.as_str());
}

fn push_plain_reg(s: &mut String, r: VirtualRegister)
    ensures
        final(s)@ == old(s)@ + reg_plain(r),
{
    let t = r.to_text();
    push_str(s, t.as_str());
}

fn push_value(s: &mut String, alloc: Option<&RegisterAllocationFunction>, v: &IRValue)
    ensures
        final(s)@ == old(s)@ + value_text(opt(alloc), *v),
{
    match v {
        IRValue::Register(r) => push_reg(s, alloc, *r),
        IRValue::Immediate(x) => {
            let t = i64_to_text(*x);
            push_str(s, t.as_str());
        },
        IRValue::GlobalVariable(name) => {
            push_str(s, "#");
            push_str(s, name.as_str());
        },
        IRValue::StringLiteral { string, reg } => {
            push_str(s, "\"");
            let e = escape_debug(string.value.as_str());
            push_str(s, e.as_str());
            push_str(s, "\" <- ");
            push_reg(s, alloc, *reg);
        },
    }
}

fn push_variable(s: &mut String, alloc: Option<&RegisterAllocationFunction>, v: &IRVariable)
    ensures
        final(s)@ == old(s)@ + variable_text(opt(alloc), *v),
{
    match v {
        IRVariable::Register(r) => push_reg(s, alloc, *r),
        IRVariable::Global(name) => {
            push_str(s, "@");
            push_str(s, name.as_str());
        },
    }
}

fn push_target(s: &mut String, t: Option<usize>)
    ensures
        final(s)@ == old(s)@ + target_text(t),
{
    match t {
        Some(b) => {
            push_str(s, "p");
            let d = usize_to_text(b);
            push_str(s, d.as_str());
        },
        None => push_str(s, "none"),
    }
}

fn binary_op_symbol(op: IRBinaryOp) -> (r: &'static str)
    ensures
        r@ == binary_op_text(op),
{
    match op {
        IRBinaryOp::Add => "+",
        IRBinaryOp::Sub => "-",
        IRBinaryOp::Mul => "*",
        IRBinaryOp::Div => "/",
        IRBinaryOp::Eq => "==",
        IRBinaryOp::Less => "<",
        IRBinaryOp::BitAnd => "&",
        IRBinaryOp::BitOr => "|",
    }
}

fn unary_op_symbol(op: IRUnaryOp) -> (r: &'static str)
    ensures
        r@ == unary_op_text(op),
{
    match op {
        IRUnaryOp::Neg => "-",
        IRUnaryOp::Not => "!",
        IRUnaryOp::Address => "&",
        IRUnaryOp::Deref => "*",
    }
}

fn push_arguments(s: &mut String, alloc: Option<&RegisterAllocationFunction>, args: &Vec<IRValue>, regs: &Vec<VirtualRegister>)
    requires
        args@.len() <= regs@.len(),
    ensures
        final(s)@ == old(s)@ + arguments_text(opt(alloc), args@, regs@),
{
    let mut i: usize = 0;
    while i < args.len()
        invariant
            args@.len() <= regs@.len(),
            i <= args@.len(),
            s@ == old(s)@ + arguments_text(opt(alloc), args@.subrange(0, i as int), regs@),
        decreases args.len() - i,
    {
        let ghost before = s@;
        if i > 0 {
            push_str(s, ", ");
        }
        push_value(s, alloc, &args[i]);
        push_str(s, " -> ");
        push_plain_reg(s, regs[i]);
        proof {
            let sub = args@.subrange(0, i + 1);
            assert(sub.drop_last() =~= args@.subrange(0, i as int));
            assert(sub.last() == args@[i as int]);
            if i == 0 {
                assert(args@.subrange(0, 0) =~= Seq::<IRValue>::empty());
            }
            assert(s@ =~= old(s)@ + arguments_text(opt(alloc), sub, regs@));
        }
        i += 1;
    }
    proof {
        assert(args@.subrange(0, i as int) =~= args@);
    }
}

/// Appends the text of a node.
#[verifier::rlimit(60)]
fn push_node(s: &mut String, alloc: Option<&RegisterAllocationFunction>, k: &IRNodeKind)
    requires
        node_printable(*k),
    ensures
        final(s)@ == old(s)@ + node_text(opt(alloc), *k),
{
    let ghost start = s@;
    match k {
        IRNodeKind::NoOp => {
            push_str(s, "nop");
            proof {
                assert(s@ =~= start + node_text(opt(alloc), *k));
            }
        },
        IRNodeKind::VariableDeclaration { reg } => {
            push_str(s, "var ");
            push_plain_reg(s, *reg);
            proof {
                assert(s@ =~= start + node_text(opt(alloc), *k));
            }
        },
        IRNodeKind::Assign { variable, value } => {
            push_variable(s, alloc, variable);
            push_str(s, " = ");
            push_value(s, alloc, value);
            proof {
                assert(s@ =~= start + node_text(opt(alloc), *k));
            }
        },
        IRNodeKind::AddressAssignment { address, value } => {
            push_str(s, "(");
            push_value(s, alloc, address);
            push_str(s, ") = ");
            push_value(s, alloc, value);
            proof {
                assert(s@ =~= start + node_text(opt(alloc), *k));
            }
        },
        IRNodeKind::Lea { base, index, scaler, result } => {
            push_reg(s, alloc, *result);
            push_str(s, " = ");
            push_value(s, alloc, base);
            push_str(s, " + ");
            push_reg(s, alloc, *index);
            push_str(s, " * ");
            let t = i64_to_text(*scaler);
            push_str(s, t.as_str());
            proof {
                assert(s@ =~= start + node_text(opt(alloc), *k));
            }
        },
        IRNodeKind::Spill { reg, offset } => {
            push_str(s, "spill ");
            push_reg(s, alloc, *reg);
            push_str(s, " to ");
            let t = usize_to_text(*offset);
            push_str(s, t.as_str());
            proof {
                assert(s@ =~= start + node_text(opt(alloc), *k));
            }
        },
        IRNodeKind::Unspill { reg, offset } => {
            push_str(s, "unspill ");
            push_reg(s, alloc, *reg);
            push_str(s, " from ");
            let t = usize_to_text(*offset);
            push_str(s, t.as_str());
            proof {
                assert(s@ =~= start + node_text(opt(alloc), *k));
            }
        },
        IRNodeKind::BinaryOp { op, left, right, result, optional_result } => {
            push_reg(s, alloc, *result);
            push_str(s, " = ");
            push_value(s, alloc, left);
            push_str(s, " ");
            push_str(s, binary_op_symbol(*op));
            push_str(s, " ");
            push_value(s, alloc, right);
            if let Some(r) = optional_result {
                push_str(s, " (");
                push_plain_reg(s, *r);
                push_str(s, ")");
            }
            proof {
                assert(s@ =~= start + node_text(opt(alloc), *k));
            }
        },
        IRNodeKind::UnaryOp { op, operand, result } => {
            push_reg(s, alloc, *result);
            push_str(s, " = ");
            push_str(s, unary_op_symbol(*op));
            push_value(s, alloc, operand);
            proof {
                assert(s@ =~= start + node_text(opt(alloc), *k));
            }
        },
        IRNodeKind::FunctionCall { name, arguments, argument_regs, result } => {
            match result {
                Some(res) => {
                    push_plain_reg(s, *res);
                    push_str(s, " = call ");
                },
                None => push_str(s, "call "),
            }
            match name {
                IRVariable::Register(r) => push_plain_reg(s, *r),
                IRVariable::Global(n) => {
                    push_str(s, "@");
                    push_str(s, n.as_str());
                },
            }
            push_str(s, "(");
            push_arguments(s, alloc, arguments, argument_regs);
            push_str(s, ")");
            proof {
                assert(s@ =~= start + node_text(opt(alloc), *k));
            }
        },
        IRNodeKind::Branch { condition, true_branch, false_branch } => {
            match condition {
                Some(c) => {
                    push_str(s, "if ");
                    push_value(s, alloc, c);
                    push_str(s, " goto ");
                    push_target(s, *true_branch);
                    push_str(s, " else goto ");
                    push_target(s, *false_branch);
                },
                None => {
                    push_str(s, "goto ");
                    push_target(s, *true_branch);
                },
            }
            proof {
                assert(s@ =~= start + node_text(opt(alloc), *k));
            }
        },
        IRNodeKind::Return { value } => {
            match value {
                Some(v) => {
                    push_str(s, "return ");
                    push_value(s, alloc, v);
                },
                None => push_str(s, "return"),
            }
            proof {
                assert(s@ =~= start + node_text(opt(alloc), *k));
            }
        },
    }
}

fn push_block(s: &mut String, alloc: Option<&RegisterAllocationFunction>, b: &IRBlock)
    requires
        block_printable(*b),
    ensures
        final(s)@ == old(s)@ + block_text(opt(alloc), *b),
{
    let ghost start = s@;
    push_str(s, "p");
    let d = usize_to_text(b.id);
    push_str(s, d.as_str());
    push_str(s, ":\n");
    let ghost head = s@;
    let mut n: usize = 0;
    while n < b.nodes.len()
        invariant
            block_printable(*b),
            n <= b.nodes@.len(),
            s@ == head + nodes_text(opt(alloc), b.nodes@.subrange(0, n as int)),
        decreases b.nodes.len() - n,
    {
        push_str(s, "  ");
        push_node(s, alloc, &b.nodes[n].kind);
        push_str(s, "\n");
        proof {
            let sub = b.nodes@.subrange(0, n + 1);
            assert(sub.drop_last() =~= b.nodes@.subrange(0, n as int));
            assert(s@ =~= head + nodes_text(opt(alloc), sub));
        }
        n += 1;
    }
    proof {
        assert(b.nodes@.subrange(0, n as int) =~= b.nodes@);
        assert(s@ =~= start + block_text(opt(alloc), *b));
    }
}

fn push_function(s: &mut String, alloc: Option<&RegisterAllocationFunction>, f: &IRFunction)
    requires
        function_printable(*f),
    ensures
        final(s)@ == old(s)@ + function_text(opt(alloc), *f),
{
    let ghost start = s@;
    push_str(s, "Function: ");
    push_str(s, f.name.as_str());
    push_str(s, " (");
    let ghost head = s@;
    let n = if f.parameters.len() < f.parameter_regs.len() { f.parameters.len() } else { f.parameter_regs.len() };
    let mut i: usize = 0;
    while i < n
        invariant
            n == if f.parameters@.len() < f.parameter_regs@.len() { f.parameters@.len() } else { f.parameter_regs@.len() },
            i <= n,
            s@ == head + params_text(opt(alloc), f.parameters@.subrange(0, i as int), f.parameter_regs@.subrange(0, i as int)),
        decreases n - i,
    {
        if i > 0 {
            push_str(s, ", ");
        }
        push_reg(s, alloc, f.parameters[i]);
        push_str(s, " <- ");
        push_reg(s, alloc, f.parameter_regs[i]);
        proof {
            let ps = f.parameters@.subrange(0, i + 1);
            let rs = f.parameter_regs@.subrange(0, i + 1);
            assert(ps.subrange(0, i as int) =~= f.parameters@.subrange(0, i as int));
            assert(rs.subrange(0, i as int) =~= f.parameter_regs@.subrange(0, i as int));
            if i == 0 {
                assert(f.parameters@.subrange(0, 0) =~= Seq::<VirtualRegister>::empty());
            }
            assert(s@ =~= head + params_text(opt(alloc), ps, rs));
        }
        i += 1;
    }
    proof {
        let ps = f.parameters@;
        let rs = f.parameter_regs@;
        if n == ps.len() && n == rs.len() {
            assert(ps.subrange(0, n as int) =~= ps);
            assert(rs.subrange(0, n as int) =~= rs);
        } else {
            lemma_params_prefix(opt(alloc), ps, rs);
        }
    }
    push_str(s, ")\n");
    let ghost body_start = s@;
    let mut b: usize = 0;
    while b < f.body.len()
        invariant
            function_printable(*f),
            b <= f.body@.len(),
            s@ == body_start + blocks_text(opt(alloc), f.body@.subrange(0, b as int)),
        decreases f.body.len() - b,
    {
        push_block(s, alloc, &f.body[b]);
        proof {
            let sub = f.body@.subrange(0, b + 1);
            assert(sub.drop_last() =~= f.body@.subrange(0, b as int));
            assert(s@ =~= body_start + blocks_text(opt(alloc), sub));
        }
        b += 1;
    }
    proof {
        assert(f.body@.subrange(0, b as int) =~= f.body@);
        assert(s@ =~= start + function_text(opt(alloc), *f));
    }
}

/// Only the common prefix of the two lists is written.
proof fn lemma_params_prefix(alloc: Option<RegisterAllocationFunction>, ps: Seq<VirtualRegister>, rs: Seq<VirtualRegister>)
    ensures
        ({
            let n = if ps.len() < rs.len() { ps.len() } else { rs.len() };
            params_text(alloc, ps, rs) == params_text(alloc, ps.subrange(0, n as int), rs.subrange(0, n as int))
        }),
{
    let n = if ps.len() < rs.len() { ps.len() } else { rs.len() };
    let ps2 = ps.subrange(0, n as int);
    let rs2 = rs.subrange(0, n as int);
    if n > 0 {
        assert(ps2.subrange(0, n - 1) =~= ps.subrange(0, n - 1));
        assert(rs2.subrange(0, n - 1) =~= rs.subrange(0, n - 1));
    }
}

pub open spec fn variable_type_text(t: VariableType) -> Seq<char> {
    match t {
        VariableType::Char => "char"@,
        VariableType::Int => "int"@,
        VariableType::Long => "long"@,
        VariableType::Pointer => "pointer"@,
    }
}

fn variable_type_name(t: VariableType) -> (r: &'static str)
    ensures
        r@ == variable_type_text(t),
{
    match t {
        VariableType::Char => "char",
        VariableType::Int => "int",
        VariableType::Long => "long",
        VariableType::Pointer => "pointer",
    }
}

impl IRNode {
    /// The node's text with registers named by an allocation where it maps them.
    pub fn fmt_with_allocation(&self, allocation: &RegisterAllocationFunction) -> (r: String)
        requires
            node_printable(self.kind),
        ensures
            r@ == node_text(Some(*allocation), self.kind),
    {
        let mut s = String::new();
        push_node(&mut s, Some(allocation), &self.kind);
        s
    }

    /// The node's text with registers as `%id`.
    pub fn to_text(&self) -> (r: String)
        requires
            node_printable(self.kind),
        ensures
            r@ == node_text(None, self.kind),
    {
        let mut s = String::new();
        push_node(&mut s, None, &self.kind);
        s
    }
}

impl IRBlock {
    pub fn fmt_with_allocation(&self, allocation: &RegisterAllocationFunction) -> (r: String)
        requires
            block_printable(*self),
        ensures
            r@ == block_text(Some(*allocation), *self),
    {
        let mut s = String::new();
        push_block(&mut s, Some(allocation), self);
        s
    }
}

impl IRBlock {
    /// The block's text with registers as `%id`.
    pub fn to_text(&self) -> (r: String)
        requires
            block_printable(*self),
        ensures
            r@ == block_text(None, *self),
    {
        let mut s = String::new();
        push_block(&mut s, None, self);
        s
    }
}

impl IRValue {
    /// The value's text with each register written as `reg_mapping` renders it.
    pub fn fmt_inner<T: Fn(&VirtualRegister) -> String>(&self, reg_mapping: &T) -> (r: String)
        requires
            forall|v: &VirtualRegister| reg_mapping.requires((v,)),
        ensures
            match *self {
                IRValue::Register(reg) => reg_mapping.ensures((&reg,), r),
                IRValue::Immediate(x) => r@ == signed_decimal(x as int),
                IRValue::GlobalVariable(name) => r@ == "#"@ + name@,
                IRValue::StringLiteral { string, reg } => exists|t: String|
                    reg_mapping.ensures((&reg,), t) && r@ == "\""@ + debug_escaped(string.value@) + "\" <- "@ + t@,
            },
    {
        match self {
            IRValue::Register(reg) => reg_mapping(reg),
            IRValue::Immediate(x) => i64_to_text(*x),
            IRValue::GlobalVariable(name) => {
                let mut s = String::new();
                push_str(&mut s, "#");
                push_str(&mut s, name.as_str());
                s
            },
            IRValue::StringLiteral { string, reg } => {
                let t = reg_mapping(reg);
                let mut s = String::new();
                push_str(&mut s, "\"");
                let e = escape_debug(string.value.as_str());
                push_str(&mut s, e.as_str());
                push_str(&mut s, "\" <- ");
                push_str(&mut s, t.as_str());
                s
            },
        }
    }

    /// The value's text with registers as `%id`.
    pub fn to_text(&self) -> (r: String)
        ensures
            r@ == value_text(None, *self),
    {
        let mut s = String::new();
        push_value(&mut s, None, self);
        s
    }
}

impl IRVariable {
    /// The variable's text with a register written as `reg_mapping` renders
    /// it, a global as `@name`.
    pub fn fmt_inner<T: Fn(&VirtualRegister) -> String>(&self, reg_mapping: &T) -> (r: String)
        requires
            forall|v: &VirtualRegister| reg_mapping.requires((v,)),
        ensures
            match *self {
                IRVariable::Register(reg) => reg_mapping.ensures((&reg,), r),
                IRVariable::Global(name) => r@ == "@"@ + name@,
            },
    {
        match self {
            IRVariable::Register(reg) => reg_mapping(reg),
            IRVariable::Global(name) => {
                let mut s = String::new();
                push_str(&mut s, "@");
                push_str(&mut s, name.as_str());
                s
            },
        }
    }

    /// `%id` for a register, `@name` for a global.
    pub fn to_text(&self) -> (r: String)
        ensures
            r@ == variable_plain(*self),
    {
        let mut s = String::new();
        push_variable(&mut s, None, self);
        s
    }
}

impl IRString {
    /// The string's value, escaped as `str::escape_debug` does, in double quotes.
    pub fn to_text(&self) -> (r: String)
        ensures
            r@ == "\""@ + debug_escaped(self.value@) + "\""@,
    {
        let mut s = String::new();
        push_str(&mut s, "\"");
        let e = escape_debug(self.value.as_str());
        push_str(&mut s, e.as_str());
        push_str(&mut s, "\"");
        s
    }
}

impl VariableType {
    /// `char`, `int`, `long` or `pointer`.
    pub fn to_text(&self) -> (r: String)
        ensures
            r@ == variable_type_text(*self),
    {
        let mut s = String::new();
        push_str(&mut s, variable_type_name(*self));
        s
    }
}

impl IRBinaryOp {
    /// The operator's symbol.
    pub fn to_text(&self) -> (r: String)
        ensures
            r@ == binary_op_text(*self),
    {
        let mut s = String::new();
        push_str(&mut s, binary_op_symbol(*self));
        s
    }
}

impl IRUnaryOp {
    /// The operator's symbol.
    pub fn to_text(&self) -> (r: String)
        ensures
            r@ == unary_op_text(*self),
    {
        let mut s = String::new();
        push_str(&mut s, unary_op_symbol(*self));
        s
    }
}

impl IRFunction {
    pub fn fmt_with_allocation(&self, allocation: &RegisterAllocationFunction) -> (r: String)
        requires
            function_printable(*self),
        ensures
            r@ == function_text(Some(*allocation), *self),
    {
        let mut s = String::new();
        push_function(&mut s, Some(allocation), self);
        s
    }

    pub fn to_text(&self) -> (r: String)
        requires
            function_printable(*self),
        ensures
            r@ == function_text(None, *self),
    {
        let mut s = String::new();
        push_function(&mut s, None, self);
        s
    }
}

pub open spec fn module_printable(m: IRModule) -> bool {
    forall|i: int| 0 <= i < m.functions@.len() ==> function_printable(#[trigger] m.functions@[i])
}

/// The allocation used for a function: the one recorded under its name.
pub open spec fn allocation_for(a: Option<RegisterAllocation>, name: Seq<char>) -> Option<RegisterAllocationFunction> {
    match a {
        Some(x) => allocation_of(x.functions@, name),
        None => None,
    }
}

pub open spec fn functions_text(a: Option<RegisterAllocation>, fs: Seq<IRFunction>) -> Seq<char>
    decreases fs.len(),
{
    if fs.len() == 0 {
        Seq::empty()
    } else {
        functions_text(a, fs.drop_last()) + function_text(allocation_for(a, fs.last().name@), fs.last())
    }
}

pub open spec fn globals_text(gs: Seq<crate::ir_generator::domain::IRVariableDeclaration>) -> Seq<char>
    decreases gs.len(),
{
    if gs.len() == 0 {
        Seq::empty()
    } else {
        globals_text(gs.drop_last()) + "Global Variable: "@ + gs.last().name@ + " ("@ + variable_type_text(gs.last().ty) + ")\n"@
    }
}

pub open spec fn strings_text(ss: Seq<crate::ir_generator::domain::IRString>) -> Seq<char>
    decreases ss.len(),
{
    if ss.len() == 0 {
        Seq::empty()
    } else {
        strings_text(ss.drop_last()) + "String: "@ + decimal(ss.last().id as nat) + " = \""@ + debug_escaped(ss.last().value@) + "\"\n"@
    }
}

/// The functions, then a line per global variable, then a line per string.
pub open spec fn module_text(a: Option<RegisterAllocation>, m: IRModule) -> Seq<char> {
    functions_text(a, m.functions@) + globals_text(m.global_variables@) + strings_text(m.strings@)
}

impl IRModule {
    fn fmt_inner(&self, allocation: Option<&RegisterAllocation>) -> (r: String)
        requires
            module_printable(*self),
        ensures
            r@ == module_text(
                match allocation {
                    Some(a) => Some(*a),
                    None => None,
                },
                *self,
            ),
    {
        let ghost a = match allocation {
            Some(a) => Some(*a),
            None => None::<RegisterAllocation>,
        };
        let mut s = String::new();
        let mut i: usize = 0;
        while i < self.functions.len()
            invariant
                module_printable(*self),
                a == match allocation {
                    Some(x) => Some(*x),
                    None => None::<RegisterAllocation>,
                },
                i <= self.functions@.len(),
                s@ == functions_text(a, self.functions@.subrange(0, i as int)),
            decreases self.functions.len() - i,
        {
            let f = &self.functions[i];
            let alloc = match allocation {
                Some(x) => x.get_function(&f.name),
                None => None,
            };
            proof {
                assert(opt(alloc) == allocation_for(a, f.name@));
            }
            push_function(&mut s, alloc, f);
            proof {
                let sub = self.functions@.subrange(0, i + 1);
                assert(sub.drop_last() =~= self.functions@.subrange(0, i as int));
            }
            i += 1;
        }
        proof {
            assert(self.functions@.subrange(0, i as int) =~= self.functions@);
        }
        let ghost after_functions = s@;
        let mut g: usize = 0;
        while g < self.global_variables.len()
            invariant
                g <= self.global_variables@.len(),
                s@ == after_functions + globals_text(self.global_variables@.subrange(0, g as int)),
            decreases self.global_variables.len() - g,
        {
            let var = &self.global_variables[g];
            push_str(&mut s, "Global Variable: ");
            push_str(&mut s, var.name.as_str());
            push_str(&mut s, " (");
            push_str(&mut s, variable_type_name(var.ty));
            push_str(&mut s, ")\n");
            proof {
                let sub = self.global_variables@.subrange(0, g + 1);
                assert(sub.drop_last() =~= self.global_variables@.subrange(0, g as int));
                assert(s@ =~= after_functions + globals_text(sub));
            }
            g += 1;
        }
        proof {
            assert(self.global_variables@.subrange(0, g as int) =~= self.global_variables@);
        }
        let ghost after_globals = s@;
        let mut k: usize = 0;
        while k < self.strings.len()
            invariant
                k <= self.strings@.len(),
                s@ == after_globals + strings_text(self.strings@.subrange(0, k as int)),
            decreases self.strings.len() - k,
        {
            let string = &self.strings[k];
            push_str(&mut s, "String: ");
            let d = usize_to_text(string.id);
            push_str(&mut s, d.as_str());
            push_str(&mut s, " = \"");
            let e = escape_debug(string.value.as_str());
            push_str(&mut s, e.as_str());
            push_str(&mut s, "\"\n");
            proof {
                let sub = self.strings@.subrange(0, k + 1);
                assert(sub.drop_last() =~= self.strings@.subrange(0, k as int));
                assert(s@ =~= after_globals + strings_text(sub));
            }
            k += 1;
        }
        proof {
            assert(self.strings@.subrange(0, k as int) =~= self.strings@);
        }
        s
    }

    /// The module's text with registers named by the allocation recorded
    /// for each function.
    pub fn fmt_with_allocation(&self, allocation: &RegisterAllocation) -> (r: String)
        requires
            module_printable(*self),
        ensures
            r@ == module_text(Some(*allocation), *self),
    {
        self.fmt_inner(Some(allocation))
    }

    /// The module's text with registers as `%id`.
    pub fn to_text(&self) -> (r: String)
        requires
            module_printable(*self),
        ensures
            r@ == module_text(None, *self),
    {
        self.fmt_inner(None)
    }
}

} // verus!
