//! Inlining of small leaf functions: each call is replaced by a copy of the
//! callee's blocks, with parameters replaced by the arguments and returns
//! turned into jumps to the code after the call.
use vstd::prelude::*;
use crate::ir_generator::domain::{
    blocks_view, body_wf, compacted, has_block, ids_are_positions, ids_unique, is_target, mapped_registers, mapped_targets, merged_blocks, referenced, renumbered, same_block,
    same_function, same_kind,
    targets_closed, IRBlock, IRFunction, IRModule, IRNode, IRNodeKind, IRValue, IRVariable,
};
use crate::ir_optimizer::error::IROptimizerError;
use crate::ir_optimizer::folder::{count_nodes, targets_within};
use crate::virtual_register::VirtualRegister;

verus! {

/// Some node of the body is a call.
pub open spec fn has_call(body: Seq<IRBlock>) -> bool {
    exists|b: int, n: int| 0 <= b < body.len() && 0 <= n < body[b].nodes@.len() && (#[trigger] body[b].nodes@[n]).kind is FunctionCall
}

/// The node calls the global function `name`.
pub open spec fn calls_name(k: IRNodeKind, name: Seq<char>) -> bool {
    match k {
        IRNodeKind::FunctionCall { name: IRVariable::Global(g), .. } => g@ == name,
        _ => false,
    }
}

/// Some node of the body calls the global function `name`.
pub open spec fn body_calls(body: Seq<IRBlock>, name: Seq<char>) -> bool {
    exists|b: int, n: int| 0 <= b < body.len() && 0 <= n < body[b].nodes@.len() && #[trigger] calls_name(body[b].nodes@[n].kind, name)
}

/// The node assigns to one of the function's parameters.
pub open spec fn assigns_parameter(k: IRNodeKind, parameters: Seq<VirtualRegister>) -> bool {
    match k {
        IRNodeKind::Assign { variable: IRVariable::Register(reg), .. } => parameters.contains(reg),
        _ => false,
    }
}

/// Some node of the function assigns to one of its parameters.
pub open spec fn modifies_parameter(f: IRFunction) -> bool {
    exists|b: int, n: int|
        0 <= b < f.body@.len() && 0 <= n < f.body@[b].nodes@.len() && assigns_parameter(
            (#[trigger] f.body@[b].nodes@[n]).kind,
            f.parameters@,
        )
}

/// A function is inlined when it has fewer than ten nodes, calls nothing
/// and never assigns to a parameter.
pub open spec fn inlinable(f: IRFunction) -> bool {
    count_nodes(f.body@) < 10 && !has_call(f.body@) && !modifies_parameter(f)
}

/// Every function has a well-formed body numbered by position.
pub open spec fn positioned(fs: Seq<IRFunction>) -> bool {
    forall|i: int| 0 <= i < fs.len() ==> body_wf((#[trigger] fs[i]).body@) && ids_are_positions(fs[i].body@)
}

proof fn lemma_count_prefix(bs: Seq<IRBlock>, k: int)
    requires
        0 <= k < bs.len(),
    ensures
        count_nodes(bs.subrange(0, k + 1)) == count_nodes(bs.subrange(0, k)) + bs[k].nodes@.len(),
{
    assert(bs.subrange(0, k + 1).drop_last() =~= bs.subrange(0, k));
}

fn can_inline(function: &IRFunction) -> (r: bool)
    ensures
        r == inlinable(*function),
{
    let ghost body = function.body@;
    let mut total: usize = 0;
    let mut b: usize = 0;
    while b < function.body.len()
        invariant
            body == function.body@,
            b <= body.len(),
            total <= 10,
            total == if count_nodes(body.subrange(0, b as int)) < 10 { count_nodes(body.subrange(0, b as int)) } else { 10 },
        decreases body.len() - b,
    {
        proof {
            lemma_count_prefix(body, b as int);
        }
        let len = function.body[b].nodes.len();
        if len >= 10 - total {
            total = 10;
        } else {
            total = total + len;
        }
        b += 1;
    }
    proof {
        assert(body.subrange(0, b as int) =~= body);
    }
    if total >= 10 {
        return false;
    }
    let mut i: usize = 0;
    while i < function.body.len()
        invariant
            body == function.body@,
            i <= body.len(),
            forall|x: int, n: int| 0 <= x < i && 0 <= n < body[x].nodes@.len() ==> !((#[trigger] body[x].nodes@[n]).kind is FunctionCall)
                && !assigns_parameter(body[x].nodes@[n].kind, function.parameters@),
        decreases body.len() - i,
    {
        let block = &function.body[i];
        let mut n: usize = 0;
        while n < block.nodes.len()
            invariant
                body == function.body@,
                i < body.len(),
                *block == body[i as int],
                n <= block.nodes@.len(),
                forall|x: int, m: int| 0 <= x < i && 0 <= m < body[x].nodes@.len() ==> !((#[trigger] body[x].nodes@[m]).kind is FunctionCall)
                    && !assigns_parameter(body[x].nodes@[m].kind, function.parameters@),
                forall|m: int| 0 <= m < n ==> !((#[trigger] block.nodes@[m]).kind is FunctionCall)
                    && !assigns_parameter(block.nodes@[m].kind, function.parameters@),
            decreases block.nodes.len() - n,
        {
            match &block.nodes[n].kind {
                IRNodeKind::FunctionCall { .. } => {
                    return false;
                },
                IRNodeKind::Assign { variable: IRVariable::Register(reg), .. } => {
                    let mut p: usize = 0;
                    while p < function.parameters.len()
                        invariant
                            body == function.body@,
                            i < body.len(),
                            n < body[i as int].nodes@.len(),
                            body[i as int].nodes@[n as int].kind matches IRNodeKind::Assign { variable: IRVariable::Register(r0), .. } && r0 == *reg,
                            p <= function.parameters@.len(),
                            forall|q: int| 0 <= q < p ==> function.parameters@[q] != *reg,
                        decreases function.parameters.len() - p,
                    {
                        if function.parameters[p] == *reg {
                            proof {
                                assert(function.parameters@[p as int] == *reg);
                                assert(assigns_parameter(body[i as int].nodes@[n as int].kind, function.parameters@));
                            }
                            return false;
                        }
                        p += 1;
                    }
                },
                _ => {},
            }
            n += 1;
        }
        i += 1;
    }
    true
}

/// The first node of the block that calls the global function `name`.
fn find_call(block: &IRBlock, name: &String) -> (r: Option<usize>)
    ensures
        r matches Some(i) ==> i < block.nodes@.len() && block.nodes@[i as int].kind is FunctionCall
            && calls_name(block.nodes@[i as int].kind, name@)
            && forall|m: int| 0 <= m < i ==> !#[trigger] calls_name(block.nodes@[m].kind, name@),
        r is None ==> forall|n: int| 0 <= n < block.nodes@.len() ==> !#[trigger] calls_name(block.nodes@[n].kind, name@),
{
    let mut i: usize = 0;
    while i < block.nodes.len()
        invariant
            i <= block.nodes@.len(),
            forall|n: int| 0 <= n < i ==> !#[trigger] calls_name(block.nodes@[n].kind, name@),
        decreases block.nodes.len() - i,
    {
        if let IRNodeKind::FunctionCall { name: IRVariable::Global(callee), .. } = &block.nodes[i].kind {
            if *callee == *name {
                return Some(i);
            }
        }
        i += 1;
    }
    None
}

/// The argument paired with `reg` among the first `i` parameters (the last
/// pairing wins), or the register itself.
pub open spec fn argument_upto(parameters: Seq<VirtualRegister>, arguments: Seq<IRValue>, reg: VirtualRegister, i: nat) -> IRValue
    decreases i,
{
    if i == 0 {
        IRValue::Register(reg)
    } else if parameters[i - 1] == reg {
        arguments[i - 1]
    } else {
        argument_upto(parameters, arguments, reg, (i - 1) as nat)
    }
}

/// The value a callee's register stands for at a call: the argument passed
/// for it when it is a parameter, else the register itself.
pub open spec fn argument_of(parameters: Seq<VirtualRegister>, arguments: Seq<IRValue>, reg: VirtualRegister) -> IRValue {
    argument_upto(parameters, arguments, reg, if parameters.len() < arguments.len() { parameters.len() } else { arguments.len() })
}

proof fn lemma_argument_upto(parameters: Seq<VirtualRegister>, arguments: Seq<IRValue>, reg: VirtualRegister, n: nat)
    requires
        n <= parameters.len(),
        n <= arguments.len(),
    ensures
        forall|i: int| 0 <= i < n && parameters[i] == reg && (forall|j: int| i < j < n ==> parameters[j] != reg)
            ==> argument_upto(parameters, arguments, reg, n) == arguments[i],
        (forall|i: int| 0 <= i < n ==> parameters[i] != reg) ==> argument_upto(parameters, arguments, reg, n) == IRValue::Register(reg),
    decreases n,
{
    if n > 0 {
        lemma_argument_upto(parameters, arguments, reg, (n - 1) as nat);
        assert forall|i: int| 0 <= i < n && parameters[i] == reg && (forall|j: int| i < j < n ==> parameters[j] != reg)
            implies argument_upto(parameters, arguments, reg, n) == arguments[i] by {
            if i < n - 1 {
                assert(parameters[n - 1] != reg);
            }
        }
    }
}

/// When a call is inlined, a register of the callee stands for the argument
/// passed at the last position where it is a parameter (with distinct
/// parameters, the `i`-th parameter stands for the `i`-th argument), among
/// the positions that have both a parameter and an argument; any other
/// register stands for itself.
pub proof fn lemma_argument_of(parameters: Seq<VirtualRegister>, arguments: Seq<IRValue>, reg: VirtualRegister)
    ensures
        forall|i: int|
            0 <= i < parameters.len() && i < arguments.len() && parameters[i] == reg && (forall|j: int|
                i < j < parameters.len() && j < arguments.len() ==> parameters[j] != reg) ==> argument_of(parameters, arguments, reg)
                == arguments[i],
        (forall|i: int| 0 <= i < parameters.len() && i < arguments.len() ==> parameters[i] != reg) ==> argument_of(
            parameters,
            arguments,
            reg,
        ) == IRValue::Register(reg),
{
    let n: nat = if parameters.len() < arguments.len() { parameters.len() } else { arguments.len() };
    lemma_argument_upto(parameters, arguments, reg, n);
}

/// The argument passed for a parameter register (the last pairing wins), or
/// the register itself.
fn argument_for(parameters: &Vec<VirtualRegister>, arguments: &Vec<IRValue>, reg: VirtualRegister) -> (r: IRValue)
    ensures
        r == argument_of(parameters@, arguments@, reg),
{
    let mut i: usize = if parameters.len() < arguments.len() {
        parameters.len()
    } else {
        arguments.len()
    };
    while i > 0
        invariant
            i <= parameters@.len(),
            i <= arguments@.len(),
            argument_of(parameters@, arguments@, reg) == argument_upto(parameters@, arguments@, reg, i as nat),
        decreases i,
    {
        if parameters[i - 1] == reg {
            return arguments[i - 1].clone();
        }
        i -= 1;
    }
    IRValue::Register(reg)
}

/// The new id of a callee block id: shifted past `base` for ids of the
/// callee's blocks.
pub open spec fn remapped(x: usize, base: usize, count: usize) -> usize {
    if x < count && base + x + 1 <= usize::MAX {
        (base + x + 1) as usize
    } else {
        x
    }
}

fn remap_id(x: usize, base: usize, count: usize) -> (r: usize)
    ensures
        r == remapped(x, base, count),
{
    if x < count {
        match base.checked_add(x + 1) {
            Some(v) => v,
            None => x,
        }
    } else {
        x
    }
}

/// A value with a callee register replaced by what it stands for.
pub open spec fn substituted_value(v: IRValue, parameters: Seq<VirtualRegister>, arguments: Seq<IRValue>) -> IRValue {
    match v {
        IRValue::Register(r) => argument_of(parameters, arguments, r),
        _ => v,
    }
}

pub open spec fn substituted_option(v: Option<IRValue>, parameters: Seq<VirtualRegister>, arguments: Seq<IRValue>) -> Option<IRValue> {
    match v {
        Some(x) => Some(substituted_value(x, parameters, arguments)),
        None => None,
    }
}

pub open spec fn remapped_option(t: Option<usize>, base: usize, count: usize) -> Option<usize> {
    match t {
        Some(x) => Some(remapped(x, base, count)),
        None => None,
    }
}

/// A callee node as copied to a call site: jump targets shifted past `base`,
/// operands substituted. (Calls are not copied: an inlined callee has none.)
pub open spec fn copied_kind(k: IRNodeKind, base: usize, count: usize, parameters: Seq<VirtualRegister>, arguments: Seq<IRValue>) -> IRNodeKind {
    match k {
        IRNodeKind::Assign { variable, value } => IRNodeKind::Assign { variable, value: substituted_value(value, parameters, arguments) },
        IRNodeKind::AddressAssignment { address, value } => IRNodeKind::AddressAssignment {
            address: substituted_value(address, parameters, arguments),
            value: substituted_value(value, parameters, arguments),
        },
        IRNodeKind::Lea { base: b, index, scaler, result } => IRNodeKind::Lea {
            base: substituted_value(b, parameters, arguments),
            index,
            scaler,
            result,
        },
        IRNodeKind::BinaryOp { op, left, right, result, optional_result } => IRNodeKind::BinaryOp {
            op,
            left: substituted_value(left, parameters, arguments),
            right: substituted_value(right, parameters, arguments),
            result,
            optional_result,
        },
        IRNodeKind::UnaryOp { op, operand, result } => IRNodeKind::UnaryOp {
            op,
            operand: substituted_value(operand, parameters, arguments),
            result,
        },
        IRNodeKind::Branch { condition, true_branch, false_branch } => IRNodeKind::Branch {
            condition: substituted_option(condition, parameters, arguments),
            true_branch: remapped_option(true_branch, base, count),
            false_branch: remapped_option(false_branch, base, count),
        },
        IRNodeKind::Return { value } => IRNodeKind::Return { value: substituted_option(value, parameters, arguments) },
        _ => k,
    }
}

/// Nodes with each return turned into a jump to `return_id`, preceded by an
/// assignment of the returned value to `result` when both exist.
pub open spec fn returns_rewritten(nodes: Seq<IRNode>, result: Option<VirtualRegister>, return_id: usize) -> Seq<IRNode>
    decreases nodes.len(),
{
    if nodes.len() == 0 {
        Seq::empty()
    } else {
        let prev = returns_rewritten(nodes.drop_last(), result, return_id);
        match nodes.last().kind {
            IRNodeKind::Return { value } => {
                let jump = IRNode { kind: IRNodeKind::Branch { condition: None, true_branch: Some(return_id), false_branch: None } };
                match (result, value) {
                    (Some(res), Some(v)) => prev.push(IRNode { kind: IRNodeKind::Assign { variable: IRVariable::Register(res), value: v } }).push(jump),
                    _ => prev.push(jump),
                }
            },
            _ => prev.push(nodes.last()),
        }
    }
}

/// A callee block as copied to a call site.
pub open spec fn copied_block(
    src: (usize, Seq<IRNode>),
    base: usize,
    count: usize,
    parameters: Seq<VirtualRegister>,
    arguments: Seq<IRValue>,
    result: Option<VirtualRegister>,
    return_id: usize,
) -> (usize, Seq<IRNode>) {
    (
        remapped(src.0, base, count),
        returns_rewritten(
            src.1.map_values(|n: IRNode| IRNode { kind: copied_kind(n.kind, base, count, parameters, arguments) }),
            result,
            return_id,
        ),
    )
}

/// Turns each return into a jump to `return_id`, preceded by an assignment
/// of the returned value to `result` when both exist.
fn rewrite_returns(nodes: Vec<IRNode>, result: Option<VirtualRegister>, return_id: usize) -> (r: Vec<IRNode>)
    ensures
        forall|n: int, t: usize| 0 <= n < r@.len() && #[trigger] is_target(r@[n].kind, t) ==> t == return_id
            || exists|m: int| 0 <= m < nodes@.len() && #[trigger] is_target(nodes@[m].kind, t),
        forall|n: int| 0 <= n < r@.len() && (#[trigger] r@[n]).kind is FunctionCall ==> exists|m: int|
            0 <= m < nodes@.len() && #[trigger] nodes@[m] == r@[n],
        r@ == returns_rewritten(nodes@, result, return_id),
{
    let ghost original = nodes@;
    let total: usize = nodes.len();
    let mut rest = nodes;
    let mut out: Vec<IRNode> = Vec::new();
    let mut k: usize = 0;
    while rest.len() > 0
        invariant
            original == nodes@,
            total == original.len(),
            k + rest@.len() == original.len(),
            rest@ == original.subrange(k as int, original.len() as int),
            forall|n: int, t: usize| 0 <= n < out@.len() && #[trigger] is_target(out@[n].kind, t) ==> t == return_id
                || exists|m: int| 0 <= m < original.len() && #[trigger] is_target(original[m].kind, t),
            forall|n: int| 0 <= n < out@.len() && (#[trigger] out@[n]).kind is FunctionCall ==> exists|m: int|
                0 <= m < original.len() && #[trigger] original[m] == out@[n],
            out@ == returns_rewritten(original.subrange(0, k as int), result, return_id),
        decreases rest.len(),
    {
        let node = rest.remove(0);
        proof {
            assert(node == original[k as int]);
            assert(original.subrange(0, k + 1).drop_last() =~= original.subrange(0, k as int));
            assert(original.subrange(0, k + 1).last() == node);
        }
        let ghost before = out@;
        match node.kind {
            IRNodeKind::Return { value } => {
                if let Some(res) = result {
                    if let Some(v) = value {
                        out.push(IRNode { kind: IRNodeKind::Assign { variable: IRVariable::Register(res), value: v } });
                    }
                }
                out.push(IRNode { kind: IRNodeKind::Branch { condition: None, true_branch: Some(return_id), false_branch: None } });
            },
            other => {
                out.push(IRNode { kind: other });
            },
        }
        proof {
            assert forall|n: int, t: usize| 0 <= n < out@.len() && #[trigger] is_target(out@[n].kind, t) implies t == return_id
                || exists|m: int| 0 <= m < original.len() && #[trigger] is_target(original[m].kind, t) by {
                if n < before.len() {
                    assert(out@[n] == before[n]);
                } else if !(original[k as int].kind is Return) {
                    assert(is_target(original[k as int].kind, t));
                }
            }
            assert forall|n: int| 0 <= n < out@.len() && (#[trigger] out@[n]).kind is FunctionCall implies exists|m: int|
                0 <= m < original.len() && #[trigger] original[m] == out@[n] by {
                if n < before.len() {
                    assert(out@[n] == before[n]);
                } else {
                    assert(original[k as int] == out@[n]);
                }
            }
        }
        k += 1;
        proof {
            assert(rest@ =~= original.subrange(k as int, original.len() as int));
        }
    }
    proof {
        assert(original.subrange(0, k as int) =~= original);
    }
    out
}

/// A copy of callee block `src` (whose id is `p`) for a call site: ids
/// shifted past `base`, parameters replaced by the arguments, returns turned
/// into jumps to `return_id`.
fn inline_block(
    src: &IRBlock,
    base: usize,
    count: usize,
    parameters: &Vec<VirtualRegister>,
    arguments: &Vec<IRValue>,
    result: Option<VirtualRegister>,
    return_id: usize,
) -> (r: IRBlock)
    ensures
        r.id == remapped(src.id, base, count),
        forall|n: int, t: usize| 0 <= n < r.nodes@.len() && #[trigger] is_target(r.nodes@[n].kind, t) ==> t == return_id
            || exists|m: int, t0: usize| 0 <= m < src.nodes@.len() && #[trigger] is_target(src.nodes@[m].kind, t0) && t == remapped(t0, base, count),
        forall|n: int| 0 <= n < r.nodes@.len() && (#[trigger] r.nodes@[n]).kind is FunctionCall ==> exists|m: int|
            0 <= m < src.nodes@.len() && (#[trigger] src.nodes@[m]).kind is FunctionCall,
        (forall|m: int| 0 <= m < src.nodes@.len() ==> !((#[trigger] src.nodes@[m]).kind is FunctionCall))
            ==> (r.id, r.nodes@) == copied_block((src.id, src.nodes@), base, count, parameters@, arguments@, result, return_id),
{
    let mut block = src.clone();
    let ghost copied = block;
    proof {
        assert(same_block(copied, *src));
    }
    let f = |x: usize| -> (y: usize)
        ensures
            y == remapped(x, base, count),
        { remap_id(x, base, count) };
    block.map_block_ids(f);
    let ghost renamed = block;
    let g = |reg: VirtualRegister| -> (v: IRValue)
        ensures
            v == argument_of(parameters@, arguments@, reg),
        { argument_for(parameters, arguments, reg) };
    block.map_register_to_value(g);
    let ghost substituted = block;
    proof {
        assert forall|n: int, t: usize| 0 <= n < substituted.nodes@.len() && #[trigger] is_target(substituted.nodes@[n].kind, t)
            implies exists|m: int, t0: usize| 0 <= m < src.nodes@.len() && #[trigger] is_target(src.nodes@[m].kind, t0) && t == remapped(t0, base, count) by {
            let k1 = renamed.nodes@[n].kind;
            assert(is_target(k1, t));
            let k0 = copied.nodes@[n].kind;
            assert(k0 == src.nodes@[n].kind);
            match k0 {
                IRNodeKind::Branch { true_branch, false_branch, .. } => {
                    if true_branch is Some && k1->true_branch == Some(t) {
                        let t0 = true_branch->0;
                        assert(is_target(src.nodes@[n].kind, t0));
                    } else {
                        let t0 = false_branch->0;
                        assert(is_target(src.nodes@[n].kind, t0));
                    }
                },
                _ => {},
            }
        }
    }
    let IRBlock { id, nodes } = block;
    proof {
        if forall|m: int| 0 <= m < src.nodes@.len() ==> !((#[trigger] src.nodes@[m]).kind is FunctionCall) {
            let want = src.nodes@.map_values(|n: IRNode| IRNode { kind: copied_kind(n.kind, base, count, parameters@, arguments@) });
            assert forall|m: int| 0 <= m < nodes@.len() implies #[trigger] nodes@[m] == want[m] by {
                let k0 = src.nodes@[m].kind;
                let kc = copied.nodes@[m].kind;
                let k1 = renamed.nodes@[m].kind;
                let k2 = substituted.nodes@[m].kind;
                assert(!(k0 is FunctionCall));
                assert(same_kind(kc, k0));
                assert(kc == k0);
                assert(mapped_targets(kc, k1, f));
                assert(mapped_registers(k1, k2, g));
                match k0 {
                    IRNodeKind::Branch { condition, true_branch, false_branch } => {
                        assert(k1 == IRNodeKind::Branch { condition, true_branch: remapped_option(true_branch, base, count), false_branch: remapped_option(false_branch, base, count) });
                    },
                    _ => {
                        assert(k1 == k0);
                    },
                }
                assert(k2 == copied_kind(k0, base, count, parameters@, arguments@));
            }
            assert(nodes@ =~= want);
        }
    }
    let nodes = rewrite_returns(nodes, result, return_id);
    proof {
        assert forall|n: int| 0 <= n < nodes@.len() && (#[trigger] nodes@[n]).kind is FunctionCall implies exists|m: int|
            0 <= m < src.nodes@.len() && (#[trigger] src.nodes@[m]).kind is FunctionCall by {
            let m = choose|m: int| 0 <= m < substituted.nodes@.len() && #[trigger] substituted.nodes@[m] == nodes@[n];
            let k2 = substituted.nodes@[m].kind;
            let k1 = renamed.nodes@[m].kind;
            let k0 = copied.nodes@[m].kind;
            assert(mapped_registers(k1, k2, g));
            assert(k1 is FunctionCall);
            assert(k0 is FunctionCall);
            assert(same_kind(k0, src.nodes@[m].kind));
            assert(src.nodes@[m].kind is FunctionCall);
        }
    }
    IRBlock { id, nodes }
}

/// The blocks `(m)` of the body from position `from` on, weighted by their
/// nodes, which bounds the work left.
pub open spec fn weight(s: Seq<IRBlock>) -> nat
    decreases s.len(),
{
    if s.len() == 0 {
        0
    } else {
        s[0].nodes@.len() + 1 + weight(s.subrange(1, s.len() as int))
    }
}

/// What splicing a call site keeps: the well-formedness of the body.
proof fn lemma_splice_wf(
    old_body: Seq<IRBlock>,
    bi: int,
    before: IRBlock,
    inl: Seq<IRBlock>,
    ret: IRBlock,
    after: IRBlock,
    a: usize,
)
    requires
        0 <= bi < old_body.len(),
        ids_unique(old_body),
        targets_closed(old_body),
        forall|j: int| 0 <= j < old_body.len() ==> (#[trigger] old_body[j]).id < a,
        a + inl.len() + 2 <= usize::MAX,
        before.id == old_body[bi].id,
        targets_within(before.nodes@, old_body[bi].nodes@),
        after.id == a,
        targets_within(after.nodes@, old_body[bi].nodes@),
        forall|p: int| 0 <= p < inl.len() ==> (#[trigger] inl[p]).id == a + 1 + p,
        forall|p: int, n: int, t: usize| 0 <= p < inl.len() && 0 <= n < inl[p].nodes@.len() && #[trigger] is_target(inl[p].nodes@[n].kind, t)
            ==> t == a + inl.len() + 1 || (a + 1 <= t < a + 1 + inl.len()),
        ret.id == a + inl.len() + 1,
        ret.nodes@.len() == 0,
    ensures
        ({
            let nb = old_body.subrange(0, bi) + seq![before] + inl + seq![ret, after] + old_body.subrange(bi + 1, old_body.len() as int);
            &&& ids_unique(nb)
            &&& targets_closed(nb)
            &&& forall|j: int| 0 <= j < nb.len() ==> (#[trigger] nb[j]).id < a + inl.len() + 2
        }),
{
    let pre = old_body.subrange(0, bi);
    let suf = old_body.subrange(bi + 1, old_body.len() as int);
    let mid = seq![before] + inl + seq![ret, after];
    let nb = old_body.subrange(0, bi) + seq![before] + inl + seq![ret, after] + old_body.subrange(bi + 1, old_body.len() as int);
    assert(nb =~= pre + mid + suf);
    let tl = inl.len() as int;
    let ml = tl + 3;
    assert(mid.len() == ml);
    assert(nb.len() == old_body.len() + tl + 2);
    // Where each new block comes from.
    assert forall|j: int| #![trigger nb[j]] 0 <= j < nb.len() implies
        (j < bi ==> nb[j] == old_body[j])
        && (j == bi ==> nb[j] == before)
        && (bi + 1 <= j < bi + 1 + tl ==> nb[j] == inl[j - bi - 1])
        && (j == bi + 1 + tl ==> nb[j] == ret)
        && (j == bi + 2 + tl ==> nb[j] == after)
        && (j > bi + 2 + tl ==> nb[j] == old_body[j - tl - 2]) by {
        if j < bi {
            assert(nb[j] == pre[j]);
        } else if j < bi + ml {
            assert(nb[j] == mid[j - bi]);
            if j == bi {
                assert(mid[0] == before);
            } else if j < bi + 1 + tl {
                assert(mid[j - bi] == inl[j - bi - 1]);
            } else if j == bi + 1 + tl {
                assert(mid[j - bi] == ret);
            } else {
                assert(mid[j - bi] == after);
            }
        } else {
            assert(nb[j] == suf[j - bi - ml]);
        }
    }
    assert forall|j: int| 0 <= j < nb.len() implies (#[trigger] nb[j]).id < a + inl.len() + 2 by {
        if j > bi + 2 + tl {
            assert(old_body[j - tl - 2].id < a);
        }
    }
    assert forall|i: int, j: int| 0 <= i < nb.len() && 0 <= j < nb.len() && #[trigger] nb[i].id == #[trigger] nb[j].id implies i == j by {
        let oi = if i < bi { i } else if i == bi { bi } else if i > bi + 2 + tl { i - tl - 2 } else { -1 };
        let oj = if j < bi { j } else if j == bi { bi } else if j > bi + 2 + tl { j - tl - 2 } else { -1 };
        if oi >= 0 && oj >= 0 {
            assert(old_body[oi].id == nb[i].id);
            assert(old_body[oj].id == nb[j].id);
        } else if oi >= 0 {
            assert(old_body[oi].id < a);
        } else if oj >= 0 {
            assert(old_body[oj].id < a);
        }
    }
    assert forall|t: usize| #[trigger] referenced(nb, t) implies has_block(nb, t) by {
        let (b, n) = choose|b: int, n: int| 0 <= b < nb.len() && 0 <= n < nb[b].nodes@.len() && #[trigger] is_target(nb[b].nodes@[n].kind, t);
        if b == bi + 1 + tl {
            assert(nb[b] == ret);
            assert(false);
        } else if bi < b && b < bi + 1 + tl {
            let p = b - bi - 1;
            assert(nb[b] == inl[p]);
            assert(is_target(inl[p].nodes@[n].kind, t));
            if t == a + tl + 1 {
                assert(nb[bi + 1 + tl] == ret);
                assert(nb[bi + 1 + tl].id == t);
            } else {
                let q = t - a - 1;
                assert(0 <= q < tl);
                assert(nb[bi + 1 + q] == inl[q]);
                assert(nb[bi + 1 + q].id == t);
            }
        } else {
            if b < bi {
                assert(nb[b] == old_body[b]);
                assert(is_target(old_body[b].nodes@[n].kind, t));
                assert(referenced(old_body, t));
            } else if b > bi + 2 + tl {
                assert(nb[b] == old_body[b - tl - 2]);
                assert(is_target(old_body[b - tl - 2].nodes@[n].kind, t));
                assert(referenced(old_body, t));
            } else if b == bi {
                assert(nb[b] == before);
                assert(is_target(before.nodes@[n].kind, t));
                let m = choose|m: int| 0 <= m < old_body[bi].nodes@.len() && #[trigger] is_target(old_body[bi].nodes@[m].kind, t);
                assert(referenced(old_body, t));
            } else {
                assert(b == bi + 2 + tl);
                assert(nb[b] == after);
                assert(is_target(after.nodes@[n].kind, t));
                let m = choose|m: int| 0 <= m < old_body[bi].nodes@.len() && #[trigger] is_target(old_body[bi].nodes@[m].kind, t);
                assert(referenced(old_body, t));
            }
            assert(has_block(old_body, t));
            let i = choose|i: int| 0 <= i < old_body.len() && #[trigger] old_body[i].id == t;
            if i < bi {
                assert(nb[i] == old_body[i]);
                assert(nb[i].id == t);
            } else if i == bi {
                assert(nb[bi] == before);
                assert(nb[bi].id == t);
            } else {
                assert(nb[i + tl + 2] == old_body[i]);
                assert(nb[i + tl + 2].id == t);
            }
        }
    }
}

/// The body is small enough that inlining a callee of `count` blocks at
/// every call keeps block ids within `usize`.
pub open spec fn inline_fits(body: Seq<IRBlock>, count: nat) -> bool {
    body.len() + weight(body) * (count + 2) <= usize::MAX
}

/// The weight of a nonempty list unfolds at its first block.
proof fn lemma_weight_first(s: Seq<IRBlock>)
    requires
        s.len() > 0,
    ensures
        weight(s) == s[0].nodes@.len() + 1 + weight(s.subrange(1, s.len() as int)),
        weight(s) >= 1,
{
}

/// What splicing a call site does to the calls of a body: every call of the
/// new body is one of the old body, when the inlined blocks call nothing;
/// and the blocks up to the continuation call `name` nowhere when the block
/// before the call does not.
proof fn lemma_splice_calls(
    old_body: Seq<IRBlock>,
    bi: int,
    ni: int,
    before: IRBlock,
    inl: Seq<IRBlock>,
    ret: IRBlock,
    after: IRBlock,
    name: Seq<char>,
)
    requires
        0 <= bi < old_body.len(),
        0 <= ni < old_body[bi].nodes@.len(),
        before.nodes@ == old_body[bi].nodes@.subrange(0, ni),
        after.nodes@ == old_body[bi].nodes@.subrange(ni + 1, old_body[bi].nodes@.len() as int),
        forall|p: int, n: int| 0 <= p < inl.len() && 0 <= n < inl[p].nodes@.len() ==> !((#[trigger] inl[p].nodes@[n]).kind is FunctionCall),
        ret.nodes@.len() == 0,
        forall|m: int| 0 <= m < ni ==> !#[trigger] calls_name(old_body[bi].nodes@[m].kind, name),
    ensures
        ({
            let nb = old_body.subrange(0, bi) + seq![before] + inl + seq![ret, after] + old_body.subrange(bi + 1, old_body.len() as int);
            &&& forall|x: Seq<char>| #[trigger] body_calls(nb, x) ==> body_calls(old_body, x)
            &&& forall|n: int| 0 <= n < before.nodes@.len() ==> !#[trigger] calls_name(before.nodes@[n].kind, name)
            &&& forall|p: int, n: int| 0 <= p < inl.len() && 0 <= n < inl[p].nodes@.len() ==> !#[trigger] calls_name(inl[p].nodes@[n].kind, name)
        }),
{
    let nb = old_body.subrange(0, bi) + seq![before] + inl + seq![ret, after] + old_body.subrange(bi + 1, old_body.len() as int);
    let tl = inl.len() as int;
    let pre = old_body.subrange(0, bi);
    let suf = old_body.subrange(bi + 1, old_body.len() as int);
    let mid = seq![before] + inl + seq![ret, after];
    assert(nb =~= pre + mid + suf);
    assert forall|x: Seq<char>| #[trigger] body_calls(nb, x) implies body_calls(old_body, x) by {
        let (b, n) = choose|b: int, n: int| 0 <= b < nb.len() && 0 <= n < nb[b].nodes@.len() && #[trigger] calls_name(nb[b].nodes@[n].kind, x);
        if b < bi {
            assert(nb[b] == pre[b]);
            assert(calls_name(old_body[b].nodes@[n].kind, x));
        } else if b < bi + tl + 3 {
            assert(nb[b] == mid[b - bi]);
            if b == bi {
                assert(mid[0] == before);
                assert(before.nodes@[n] == old_body[bi].nodes@[n]);
                assert(calls_name(old_body[bi].nodes@[n].kind, x));
            } else if b < bi + 1 + tl {
                assert(mid[b - bi] == inl[b - bi - 1]);
                assert(!(inl[b - bi - 1].nodes@[n].kind is FunctionCall));
            } else if b == bi + 1 + tl {
                assert(mid[b - bi] == ret);
            } else {
                assert(mid[b - bi] == after);
                assert(after.nodes@[n] == old_body[bi].nodes@[ni + 1 + n]);
                assert(calls_name(old_body[bi].nodes@[ni + 1 + n].kind, x));
            }
        } else {
            assert(nb[b] == suf[b - bi - tl - 3]);
            assert(calls_name(old_body[b - tl - 2].nodes@[n].kind, x));
        }
    }
    assert forall|n: int| 0 <= n < before.nodes@.len() implies !#[trigger] calls_name(before.nodes@[n].kind, name) by {
        assert(before.nodes@[n] == old_body[bi].nodes@[n]);
    }
}

/// The position of the first node that calls `name`.
pub open spec fn first_call(nodes: Seq<IRNode>, name: Seq<char>) -> Option<int> {
    if exists|i: int| 0 <= i < nodes.len() && #[trigger] calls_name(nodes[i].kind, name)
        && (forall|m: int| 0 <= m < i ==> !calls_name(nodes[m].kind, name)) {
        Some(choose|i: int| 0 <= i < nodes.len() && #[trigger] calls_name(nodes[i].kind, name)
            && (forall|m: int| 0 <= m < i ==> !calls_name(nodes[m].kind, name)))
    } else {
        None
    }
}

proof fn lemma_first_call(nodes: Seq<IRNode>, name: Seq<char>, i: int)
    requires
        0 <= i < nodes.len(),
        calls_name(nodes[i].kind, name),
        forall|m: int| 0 <= m < i ==> !#[trigger] calls_name(nodes[m].kind, name),
    ensures
        first_call(nodes, name) == Some(i),
{
    let j = choose|j: int| 0 <= j < nodes.len() && #[trigger] calls_name(nodes[j].kind, name)
        && (forall|m: int| 0 <= m < j ==> !calls_name(nodes[m].kind, name));
    if j < i {
        assert(!calls_name(nodes[j].kind, name));
    }
    if i < j {
        assert(!calls_name(nodes[i].kind, name));
    }
}

/// What replaces block `b` when its node `ni` is a call of a callee with
/// parameters `params` and blocks `cbody` (ids numbered by position): the
/// nodes before the call; the callee's blocks, copied with ids shifted past
/// `a`; an empty block that the copied returns jump to; and the nodes after
/// the call, in a block with id `a`.
pub open spec fn call_site_blocks(
    b: (usize, Seq<IRNode>),
    ni: int,
    a: usize,
    params: Seq<VirtualRegister>,
    cbody: Seq<(usize, Seq<IRNode>)>,
) -> Seq<(usize, Seq<IRNode>)> {
    let count = cbody.len();
    let ret = (a + count + 1) as usize;
    let (args, res) = match b.1[ni].kind {
        IRNodeKind::FunctionCall { arguments, result, .. } => (arguments@, result),
        _ => (Seq::<IRValue>::empty(), None::<VirtualRegister>),
    };
    seq![(b.0, b.1.subrange(0, ni))] + Seq::new(count, |p: int| copied_block(cbody[p], a, count as usize, params, args, res, ret))
        + seq![(ret, Seq::<IRNode>::empty()), (a, b.1.subrange(ni + 1, b.1.len() as int))]
}

/// Inlining from block `bi` on: in each block, the first call of `name` is
/// replaced by [`call_site_blocks`] and the scan goes on with the block
/// after the call; new block ids continue after the body's length. Stops
/// when `fuel` runs out or the ids would not fit in `usize`.
pub open spec fn inline_from(
    body: Seq<(usize, Seq<IRNode>)>,
    bi: int,
    name: Seq<char>,
    params: Seq<VirtualRegister>,
    cbody: Seq<(usize, Seq<IRNode>)>,
    fuel: nat,
) -> Seq<(usize, Seq<IRNode>)>
    decreases fuel,
{
    if fuel == 0 || bi < 0 || bi >= body.len() {
        body
    } else {
        match first_call(body[bi].1, name) {
            None => inline_from(body, bi + 1, name, params, cbody, (fuel - 1) as nat),
            Some(ni) => if body.len() + cbody.len() + 2 > usize::MAX {
                body
            } else {
                inline_from(
                    body.subrange(0, bi) + call_site_blocks(body[bi], ni, body.len() as usize, params, cbody) + body.subrange(
                        bi + 1,
                        body.len() as int,
                    ),
                    bi + cbody.len() + 2,
                    name,
                    params,
                    cbody,
                    (fuel - 1) as nat,
                )
            },
        }
    }
}

/// A body with every call of the callee inlined, as ids and nodes.
pub open spec fn inlined_body(
    body: Seq<IRBlock>,
    name: Seq<char>,
    params: Seq<VirtualRegister>,
    cbody: Seq<(usize, Seq<IRNode>)>,
) -> Seq<(usize, Seq<IRNode>)> {
    inline_from(blocks_view(body), 0, name, params, cbody, weight(body) + 1)
}

/// The splice of a call site, seen as ids and nodes.
proof fn lemma_splice_view(
    old_body: Seq<IRBlock>,
    bi: int,
    ni: int,
    before: IRBlock,
    inl: Seq<IRBlock>,
    ret: IRBlock,
    after: IRBlock,
    a: usize,
    params: Seq<VirtualRegister>,
    cbody: Seq<(usize, Seq<IRNode>)>,
)
    requires
        0 <= bi < old_body.len(),
        0 <= ni < old_body[bi].nodes@.len(),
        a + cbody.len() + 2 <= usize::MAX,
        inl.len() == cbody.len(),
        ({
            let bv = (old_body[bi].id, old_body[bi].nodes@);
            let csb = call_site_blocks(bv, ni, a, params, cbody);
            &&& (before.id, before.nodes@) == csb[0]
            &&& forall|p: int| 0 <= p < inl.len() ==> (#[trigger] inl[p].id, inl[p].nodes@) == csb[p + 1]
            &&& (ret.id, ret.nodes@) == csb[cbody.len() + 1int]
            &&& (after.id, after.nodes@) == csb[cbody.len() + 2int]
        }),
    ensures
        blocks_view(old_body.subrange(0, bi) + seq![before] + inl + seq![ret, after] + old_body.subrange(bi + 1, old_body.len() as int))
            == blocks_view(old_body).subrange(0, bi) + call_site_blocks(blocks_view(old_body)[bi], ni, a, params, cbody)
            + blocks_view(old_body).subrange(bi + 1, old_body.len() as int),
{
    let nb = old_body.subrange(0, bi) + seq![before] + inl + seq![ret, after] + old_body.subrange(bi + 1, old_body.len() as int);
    let v = blocks_view(old_body);
    let csb = call_site_blocks(v[bi], ni, a, params, cbody);
    let rhs = v.subrange(0, bi) + csb + v.subrange(bi + 1, old_body.len() as int);
    let tl = inl.len() as int;
    assert(v[bi] == (old_body[bi].id, old_body[bi].nodes@));
    assert(csb.len() == tl + 3);
    let pre = old_body.subrange(0, bi);
    let suf = old_body.subrange(bi + 1, old_body.len() as int);
    let mid = seq![before] + inl + seq![ret, after];
    assert(nb =~= pre + mid + suf);
    assert forall|j: int| 0 <= j < nb.len() implies #[trigger] blocks_view(nb)[j] == rhs[j] by {
        if j < bi {
            assert(nb[j] == old_body[j]);
        } else if j < bi + tl + 3 {
            assert(nb[j] == mid[j - bi]);
            if j == bi {
                assert(mid[0] == before);
            } else if j < bi + 1 + tl {
                assert(mid[j - bi] == inl[j - bi - 1]);
            } else if j == bi + 1 + tl {
                assert(mid[j - bi] == ret);
            } else {
                assert(mid[j - bi] == after);
            }
        } else {
            assert(nb[j] == suf[j - bi - tl - 3]);
            assert(nb[j] == old_body[j - tl - 2]);
        }
    }
    assert(blocks_view(nb) =~= rhs);
}

/// Inlines every call to `target` in a body. Calls inside the copies are
/// not inlined again.
fn inline_calls(body: Vec<IRBlock>, target: &IRFunction) -> (r: Vec<IRBlock>)
    requires
        body_wf(body@),
        ids_are_positions(body@),
        body_wf(target.body@),
        ids_are_positions(target.body@),
    ensures
        body_wf(r@),
        !has_call(target.body@) ==> forall|x: Seq<char>| #[trigger] body_calls(r@, x) ==> body_calls(body@, x),
        !has_call(target.body@) && inline_fits(body@, target.body@.len()) ==> !body_calls(r@, target.name@),
        !has_call(target.body@) ==> blocks_view(r@) == inlined_body(body@, target.name@, target.parameters@, blocks_view(target.body@)),
{
    let ghost orig = body@;
    let ghost nc = !has_call(target.body@);
    let mut body = body;
    let count = target.body.len();
    let ghost fits0 = inline_fits(orig, count as nat);
    let mut block_offset: usize = body.len();
    let mut block_index: usize = 0;
    let ghost tn = target.name@;
    let ghost tp = target.parameters@;
    let ghost tb = blocks_view(target.body@);
    let ghost goal = inlined_body(orig, tn, tp, tb);
    let ghost mut fuel: nat = weight(orig) + 1;
    proof {
        assert(body@.subrange(0, body@.len() as int) =~= body@);
    }
    while block_index < body.len()
        invariant
            nc == !has_call(target.body@),
            fits0 == inline_fits(orig, count as nat),
            block_offset == body@.len(),
            nc ==> forall|x: Seq<char>| #[trigger] body_calls(body@, x) ==> body_calls(orig, x),
            nc ==> forall|j: int, n: int| 0 <= j < block_index && 0 <= n < body@[j].nodes@.len()
                ==> !#[trigger] calls_name(body@[j].nodes@[n].kind, target.name@),
            fits0 ==> body@.len() + weight(body@.subrange(block_index as int, body@.len() as int)) * (count + 2) <= usize::MAX,
            ids_unique(body@),
            targets_closed(body@),
            forall|j: int| 0 <= j < body@.len() ==> (#[trigger] body@[j]).id < block_offset,
            body@.len() <= block_offset,
            block_index <= body@.len(),
            body_wf(target.body@),
            ids_are_positions(target.body@),
            count == target.body@.len(),
            tn == target.name@,
            tp == target.parameters@,
            tb == blocks_view(target.body@),
            goal == inlined_body(orig, tn, tp, tb),
            fuel >= weight(body@.subrange(block_index as int, body@.len() as int)) + 1,
            nc ==> inline_from(blocks_view(body@), block_index as int, tn, tp, tb, fuel) == goal,
        ensures
            fits0 ==> block_index >= body@.len(),
            nc ==> blocks_view(body@) == goal,
        decreases weight(body@.subrange(block_index as int, body@.len() as int)),
    {
        let ghost old_body = body@;
        let ghost bi = block_index as int;
        let ghost w_old = weight(old_body.subrange(bi, old_body.len() as int));
        let ghost w_rest = weight(old_body.subrange(bi + 1, old_body.len() as int));
        proof {
            assert(old_body.subrange(bi, old_body.len() as int).subrange(1, old_body.len() - bi) =~= old_body.subrange(bi + 1, old_body.len() as int));
            lemma_weight_first(old_body.subrange(bi, old_body.len() as int));
            assert(w_old == old_body[bi].nodes@.len() + 1 + w_rest);
        }
        let found = find_call(&body[block_index], &target.name);
        let ghost v = blocks_view(old_body);
        proof {
            assert(v[bi] == (old_body[bi].id, old_body[bi].nodes@));
        }
        let node_index = match found {
            Some(i) => i,
            None => {
                proof {
                    assert(first_call(v[bi].1, tn) is None);
                    assert(inline_from(v, bi, tn, tp, tb, fuel) == inline_from(v, bi + 1, tn, tp, tb, (fuel - 1) as nat));
                    fuel = (fuel - 1) as nat;
                    let c2 = count + 2;
                    assert(w_rest * c2 <= w_old * c2) by (nonlinear_arith)
                        requires
                            w_rest <= w_old,
                            c2 >= 0,
                    ;
                }
                block_index += 1;
                continue;
            },
        };
        proof {
            if fits0 {
                let c2 = count + 2;
                assert(c2 <= w_old * c2) by (nonlinear_arith)
                    requires
                        w_old >= 1,
                        c2 >= 0,
                ;
            }
            lemma_first_call(v[bi].1, tn, node_index as int);
        }
        let a = block_offset;
        let next = match a.checked_add(count) {
            Some(x) => match x.checked_add(2) {
                Some(w) => w,
                None => {
                    proof {
                        assert(inline_from(v, bi, tn, tp, tb, fuel) == v);
                    }
                    break;
                },
            },
            None => {
                proof {
                    assert(inline_from(v, bi, tn, tp, tb, fuel) == v);
                }
                break;
            },
        };
        let mut tail = body.split_off(block_index + 1);
        let block = match body.pop() {
            Some(b) => b,
            None => {
                break;
            },
        };
        proof {
            assert(block == old_body[bi]);
            assert(body@ =~= old_body.subrange(0, bi));
            assert(tail@ =~= old_body.subrange(bi + 1, old_body.len() as int));
        }
        let IRBlock { id, nodes } = block;
        let ghost block_nodes = nodes@;
        proof {
            assert(node_index < block_nodes.len());
        }
        let mut before_nodes = nodes;
        let nlen = before_nodes.len();
        proof {
            assert(node_index < nlen);
        }
        let after_nodes = before_nodes.split_off(node_index + 1);
        let call = before_nodes.pop();
        proof {
            assert(call == Some(block_nodes[node_index as int]));
        }
        let (arguments, result) = match call {
            Some(IRNode { kind: IRNodeKind::FunctionCall { arguments, result, .. } }) => (arguments, result),
            _ => (Vec::new(), None),
        };
        proof {
            assert(block_nodes[node_index as int].kind matches IRNodeKind::FunctionCall { arguments: x, result: y, .. } && x@ == arguments@ && y == result);
        }
        proof {
            assert forall|n: int, t: usize| 0 <= n < before_nodes@.len() && #[trigger] is_target(before_nodes@[n].kind, t)
                implies exists|m: int| 0 <= m < block_nodes.len() && #[trigger] is_target(block_nodes[m].kind, t) by {
                assert(before_nodes@[n] == block_nodes[n]);
            }
            assert forall|n: int, t: usize| 0 <= n < after_nodes@.len() && #[trigger] is_target(after_nodes@[n].kind, t)
                implies exists|m: int| 0 <= m < block_nodes.len() && #[trigger] is_target(block_nodes[m].kind, t) by {
                assert(after_nodes@[n] == block_nodes[node_index + 1 + n]);
            }
        }
        let return_id = a + count + 1;
        let mut inlined: Vec<IRBlock> = Vec::new();
        let mut p: usize = 0;
        while p < count
            invariant
                count == target.body@.len(),
                body_wf(target.body@),
                ids_are_positions(target.body@),
                a + count + 2 <= usize::MAX,
                return_id == a + count + 1,
                p <= count,
                inlined@.len() == p,
                forall|q: int| 0 <= q < p ==> (#[trigger] inlined@[q]).id == a + 1 + q,
                nc == !has_call(target.body@),
                nc ==> forall|q: int, n: int| 0 <= q < p && 0 <= n < inlined@[q].nodes@.len() ==> !((#[trigger] inlined@[q].nodes@[n]).kind is FunctionCall),
                tb == blocks_view(target.body@),
                nc ==> forall|q: int| 0 <= q < p ==> (#[trigger] inlined@[q].id, inlined@[q].nodes@) == copied_block(
                    tb[q],
                    a,
                    count,
                    target.parameters@,
                    arguments@,
                    result,
                    return_id,
                ),
                forall|q: int, n: int, t: usize| 0 <= q < p && 0 <= n < inlined@[q].nodes@.len() && #[trigger] is_target(inlined@[q].nodes@[n].kind, t)
                    ==> t == return_id || (a + 1 <= t < a + 1 + count),
            decreases count - p,
        {
            let blk = inline_block(&target.body[p], a, count, &target.parameters, &arguments, result, return_id);
            proof {
                let src = target.body@[p as int];
                assert forall|n: int, t: usize| 0 <= n < blk.nodes@.len() && #[trigger] is_target(blk.nodes@[n].kind, t)
                    implies t == return_id || (a + 1 <= t < a + 1 + count) by {
                    if t != return_id {
                        let (m, t0) = choose|m: int, t0: usize| 0 <= m < src.nodes@.len() && #[trigger] is_target(src.nodes@[m].kind, t0) && t == remapped(t0, a, count);
                        assert(referenced(target.body@, t0));
                        let i = choose|i: int| 0 <= i < target.body@.len() && #[trigger] target.body@[i].id == t0;
                    }
                }
            }
            let ghost prev = inlined@;
            inlined.push(blk);
            proof {
                if nc {
                    assert forall|m: int| 0 <= m < target.body@[p as int].nodes@.len() implies !((#[trigger] target.body@[p as int].nodes@[m]).kind is FunctionCall) by {
                        if target.body@[p as int].nodes@[m].kind is FunctionCall {
                            assert(has_call(target.body@));
                        }
                    }
                    assert(tb[p as int] == (target.body@[p as int].id, target.body@[p as int].nodes@));
                    assert forall|q: int| 0 <= q < p + 1 implies (#[trigger] inlined@[q].id, inlined@[q].nodes@) == copied_block(
                        tb[q],
                        a,
                        count,
                        target.parameters@,
                        arguments@,
                        result,
                        return_id,
                    ) by {
                        if q < p {
                            assert(inlined@[q] == prev[q]);
                        }
                    }
                    assert forall|q: int, n: int| 0 <= q < p + 1 && 0 <= n < inlined@[q].nodes@.len() implies !((#[trigger] inlined@[q].nodes@[n]).kind is FunctionCall) by {
                        if q < p {
                            assert(inlined@[q] == prev[q]);
                        } else {
                            assert(inlined@[q] == blk);
                            if blk.nodes@[n].kind is FunctionCall {
                                let m = choose|m: int| 0 <= m < target.body@[p as int].nodes@.len() && (#[trigger] target.body@[p as int].nodes@[m]).kind is FunctionCall;
                                assert(has_call(target.body@));
                            }
                        }
                    }
                }
                assert forall|q: int, n: int, t: usize| 0 <= q < p + 1 && 0 <= n < inlined@[q].nodes@.len() && #[trigger] is_target(inlined@[q].nodes@[n].kind, t)
                    implies t == return_id || (a + 1 <= t < a + 1 + count) by {
                    if q < p {
                        assert(inlined@[q] == prev[q]);
                    }
                }
            }
            p += 1;
        }
        proof {
            assert(before_nodes@ =~= block_nodes.subrange(0, node_index as int));
            assert(after_nodes@ =~= block_nodes.subrange(node_index + 1, block_nodes.len() as int));
        }
        let before = IRBlock { id, nodes: before_nodes };
        let return_block = IRBlock { id: return_id, nodes: Vec::new() };
        let after = IRBlock { id: a, nodes: after_nodes };
        proof {
            lemma_splice_wf(old_body, bi, before, inlined@, return_block, after, a);
            if nc {
                lemma_splice_calls(old_body, bi, node_index as int, before, inlined@, return_block, after, target.name@);
                let csb = call_site_blocks(v[bi], node_index as int, a, tp, tb);
                assert(csb[0] == (before.id, before.nodes@));
                assert(csb[count + 1int] == (return_block.id, return_block.nodes@));
                assert(csb[count + 2int] == (after.id, after.nodes@));
                assert forall|q: int| 0 <= q < inlined@.len() implies (#[trigger] inlined@[q].id, inlined@[q].nodes@) == csb[q + 1] by {
                }
                lemma_splice_view(old_body, bi, node_index as int, before, inlined@, return_block, after, a, tp, tb);
            }
        }
        let ghost after_copy = after;
        let ghost inl_copy = inlined@;
        body.push(before);
        body.append(&mut inlined);
        body.push(return_block);
        body.push(after);
        body.append(&mut tail);
        proof {
            let nb = old_body.subrange(0, bi) + seq![before] + inl_copy + seq![return_block, after_copy] + old_body.subrange(bi + 1, old_body.len() as int);
            assert(body@ =~= nb);
            let nbi = bi + count + 2;
            assert(body@.subrange(nbi, body@.len() as int) =~= seq![after_copy] + old_body.subrange(bi + 1, old_body.len() as int));
            assert((seq![after_copy] + old_body.subrange(bi + 1, old_body.len() as int)).subrange(1, old_body.len() - bi) =~= old_body.subrange(bi + 1, old_body.len() as int));
            assert(after_copy.nodes@.len() < block_nodes.len());
            let w_new = weight(body@.subrange(nbi, body@.len() as int));
            lemma_weight_first(body@.subrange(nbi, body@.len() as int));
            assert(w_new == after_copy.nodes@.len() + 1 + w_rest);
            assert(after_copy.nodes@.len() + node_index + 1 == block_nodes.len());
            if fits0 {
                let c2 = count + 2;
                let ni = node_index as int;
                assert(c2 + w_new * c2 <= w_old * c2) by (nonlinear_arith)
                    requires
                        w_new + ni + 1 == w_old,
                        ni >= 0,
                        c2 >= 0,
                ;
            }
            if nc {
                assert forall|x: Seq<char>| #[trigger] body_calls(body@, x) implies body_calls(orig, x) by {
                    assert(body_calls(old_body, x));
                }
                assert forall|j: int, n: int| 0 <= j < nbi && 0 <= n < body@[j].nodes@.len()
                    implies !#[trigger] calls_name(body@[j].nodes@[n].kind, target.name@) by {
                    if j < bi {
                        assert(body@[j] == old_body[j]);
                    } else if j == bi {
                        assert(body@[j] == before);
                    } else if j < bi + 1 + count {
                        assert(body@[j] == inl_copy[j - bi - 1]);
                    } else {
                        assert(body@[j] == return_block);
                    }
                }
            }
        }
        proof {
            if nc {
                assert(inline_from(v, bi, tn, tp, tb, fuel) == inline_from(blocks_view(body@), bi + count + 2, tn, tp, tb, (fuel - 1) as nat));
            }
            fuel = (fuel - 1) as nat;
        }
        block_offset = next;
        block_index = block_index + count + 2;
    }
    proof {
        if nc && fits0 {
            if body_calls(body@, target.name@) {
                let (b, n) = choose|b: int, n: int| 0 <= b < body@.len() && 0 <= n < body@[b].nodes@.len()
                    && #[trigger] calls_name(body@[b].nodes@[n].kind, target.name@);
            }
        }
    }
    body
}

/// The node occurs in some block of the body.
pub open spec fn node_in(body: Seq<IRBlock>, x: IRNode) -> bool {
    exists|j: int, k: int| 0 <= j < body.len() && 0 <= k < body[j].nodes@.len() && #[trigger] body[j].nodes@[k] == x
}

/// Every node that compaction keeps comes from a block of the body.
proof fn lemma_merged_nodes_from(all: Seq<IRBlock>, body: Seq<IRBlock>)
    ensures
        forall|b: int, n: int| 0 <= b < merged_blocks(all, body).len() && 0 <= n < merged_blocks(all, body)[b].1.len()
            ==> node_in(body, #[trigger] merged_blocks(all, body)[b].1[n]),
    decreases body.len(),
{
    if body.len() > 0 {
        let rest = body.drop_last();
        lemma_merged_nodes_from(all, rest);
        let m0 = merged_blocks(all, rest);
        let m = merged_blocks(all, body);
        let last = body.last();
        let l = body.len() - 1;
        assert forall|x: IRNode| node_in(rest, x) implies node_in(body, x) by {
            let (j, k) = choose|j: int, k: int| 0 <= j < rest.len() && 0 <= k < rest[j].nodes@.len() && #[trigger] rest[j].nodes@[k] == x;
            assert(body[j] == rest[j]);
        }
        assert forall|b: int, n: int| 0 <= b < m.len() && 0 <= n < m[b].1.len() implies node_in(body, #[trigger] m[b].1[n]) by {
            if b < m0.len() && (m =~= m0 || b < m0.len() - 1 || m.len() == m0.len() + 1) && m[b] == m0[b] {
                assert(node_in(rest, m0[b].1[n]));
            } else if b == m0.len() {
                assert(m[b].1 == last.nodes@);
                assert(body[l].nodes@[n] == m[b].1[n]);
            } else {
                assert(b == m0.len() - 1);
                assert(m[b].1 == m0.last().1 + last.nodes@);
                if n < m0.last().1.len() {
                    assert(m[b].1[n] == m0[b].1[n]);
                    assert(node_in(rest, m0[b].1[n]));
                } else {
                    assert(m[b].1[n] == last.nodes@[n - m0.last().1.len()]);
                    assert(body[l].nodes@[n - m0.last().1.len()] == m[b].1[n]);
                }
            }
        }
    }
}

/// Compaction adds no call.
proof fn lemma_compacted_calls(before: Seq<IRBlock>, after: Seq<IRBlock>)
    requires
        compacted(before, after),
    ensures
        forall|x: Seq<char>| #[trigger] body_calls(after, x) ==> body_calls(before, x),
{
    lemma_merged_nodes_from(before, before);
    let m = merged_blocks(before, before);
    assert forall|x: Seq<char>| #[trigger] body_calls(after, x) implies body_calls(before, x) by {
        let (b, n) = choose|b: int, n: int| 0 <= b < after.len() && 0 <= n < after[b].nodes@.len() && #[trigger] calls_name(after[b].nodes@[n].kind, x);
        let k0 = m[b].1[n].kind;
        assert(renumbered(k0, after[b].nodes@[n].kind, m.map_values(|e: (usize, Seq<IRNode>)| e.0)));
        assert(k0 == after[b].nodes@[n].kind);
        assert(node_in(before, m[b].1[n]));
        let (j, k) = choose|j: int, k: int| 0 <= j < before.len() && 0 <= k < before[j].nodes@.len() && #[trigger] before[j].nodes@[k] == m[b].1[n];
        assert(calls_name(before[j].nodes@[k].kind, x));
    }
}

/// What inlining the callee `target_name`, with parameters `target_params`
/// and body `target_body`, does to the functions. Functions of that name
/// stay as they were. When the callee calls nothing: every other function's
/// body is [`inlined_body`] of its old body, then compacted; no function
/// gains a call; and no function of another name that is small enough (see
/// [`inline_fits`]) still calls the callee.
pub open spec fn inlined_into(
    before: Seq<IRFunction>,
    after: Seq<IRFunction>,
    target_name: Seq<char>,
    target_params: Seq<VirtualRegister>,
    target_body: Seq<IRBlock>,
) -> bool {
    &&& after.len() == before.len()
    &&& forall|i: int| 0 <= i < before.len() && before[i].name@ == target_name ==> #[trigger] after[i] == before[i]
    &&& !has_call(target_body) ==> forall|i: int| 0 <= i < before.len() && before[i].name@ != target_name ==> exists|rb: Seq<IRBlock>|
        blocks_view(rb) == inlined_body(before[i].body@, target_name, target_params, blocks_view(target_body))
            && #[trigger] compacted(rb, after[i].body@)
    &&& !has_call(target_body) ==> forall|i: int, x: Seq<char>| 0 <= i < before.len() && #[trigger] body_calls(after[i].body@, x)
        ==> body_calls(before[i].body@, x)
    &&& !has_call(target_body) ==> forall|i: int| 0 <= i < before.len() && before[i].name@ != target_name
        && inline_fits(before[i].body@, target_body.len()) ==> !body_calls(#[trigger] after[i].body@, target_name)
}

/// Inlines every call to `target` in every other function, then compacts
/// those functions.
fn inline_function(module: &mut IRModule, target: &IRFunction) -> (r: Result<(), IROptimizerError>)
    requires
        positioned(old(module).functions@),
        body_wf(target.body@),
        ids_are_positions(target.body@),
    ensures
        r is Ok,
        positioned(final(module).functions@),
        final(module).functions@.len() == old(module).functions@.len(),
        forall|i: int| 0 <= i < old(module).functions@.len() ==> {
            let f = #[trigger] final(module).functions@[i];
            let g = old(module).functions@[i];
            &&& f.name == g.name
            &&& f.parameters == g.parameters
            &&& f.parameter_regs == g.parameter_regs
        },
        final(module).global_variables == old(module).global_variables,
        final(module).strings == old(module).strings,
        inlined_into(old(module).functions@, final(module).functions@, target.name@, target.parameters@, target.body@),
{
    let ghost original = module.functions@;
    let mut rest: Vec<IRFunction> = Vec::new();
    std::mem::swap(&mut rest, &mut module.functions);
    let mut out: Vec<IRFunction> = Vec::new();
    while rest.len() > 0
        invariant
            original == old(module).functions@,
            positioned(original),
            body_wf(target.body@),
            ids_are_positions(target.body@),
            module.global_variables == old(module).global_variables,
            module.strings == old(module).strings,
            out@.len() + rest@.len() == original.len(),
            rest@ == original.subrange(out@.len() as int, original.len() as int),
            positioned(out@),
            !has_call(target.body@) ==> forall|i: int, x: Seq<char>| 0 <= i < out@.len() && #[trigger] body_calls(out@[i].body@, x)
                ==> body_calls(original[i].body@, x),
            !has_call(target.body@) ==> forall|i: int| 0 <= i < out@.len() && original[i].name@ != target.name@
                && inline_fits(original[i].body@, target.body@.len()) ==> !body_calls(#[trigger] out@[i].body@, target.name@),
            forall|i: int| 0 <= i < out@.len() && original[i].name@ == target.name@ ==> #[trigger] out@[i] == original[i],
            !has_call(target.body@) ==> forall|i: int| 0 <= i < out@.len() && original[i].name@ != target.name@ ==> exists|rb: Seq<IRBlock>|
                blocks_view(rb) == inlined_body(original[i].body@, target.name@, target.parameters@, blocks_view(target.body@))
                    && #[trigger] compacted(rb, out@[i].body@),
            forall|i: int| 0 <= i < out@.len() ==> {
                let f = #[trigger] out@[i];
                let g = original[i];
                &&& f.name == g.name
                &&& f.parameters == g.parameters
                &&& f.parameter_regs == g.parameter_regs
            },
        decreases rest.len(),
    {
        let mut function = rest.remove(0);
        let ghost k: int = out@.len() as int;
        proof {
            assert(function == original[k]);
        }
        let ghost before = out@;
        let ghost mut witness: Seq<IRBlock> = Seq::empty();
        if !(function.name == target.name) {
            let mut body: Vec<IRBlock> = Vec::new();
            std::mem::swap(&mut body, &mut function.body);
            let ghost body0 = body@;
            function.body = inline_calls(body, target);
            let ghost body1 = function.body@;
            function.compact();
            proof {
                lemma_compacted_calls(body1, function.body@);
                if !has_call(target.body@) {
                    assert(blocks_view(body1) == inlined_body(body0, target.name@, target.parameters@, blocks_view(target.body@)));
                    assert(compacted(body1, function.body@));
                }
                witness = body1;
                if !has_call(target.body@) {
                    assert forall|x: Seq<char>| #[trigger] body_calls(function.body@, x) implies body_calls(body0, x) by {
                        assert(body_calls(body1, x));
                    }
                    if inline_fits(body0, target.body@.len()) && body_calls(function.body@, target.name@) {
                        assert(body_calls(body1, target.name@));
                    }
                }
            }
        }
        out.push(function);
        proof {
            assert forall|i: int| 0 <= i < out@.len() implies body_wf((#[trigger] out@[i]).body@) && ids_are_positions(out@[i].body@) by {
                if i < k {
                    assert(out@[i] == before[i]);
                }
            }
            assert forall|i: int| 0 <= i < out@.len() implies {
                let f = #[trigger] out@[i];
                let g = original[i];
                &&& f.name == g.name
                &&& f.parameters == g.parameters
                &&& f.parameter_regs == g.parameter_regs
            } by {
                if i < k {
                    assert(out@[i] == before[i]);
                }
            }
            assert forall|i: int| 0 <= i < out@.len() && original[i].name@ == target.name@ implies #[trigger] out@[i] == original[i] by {
                if i < k {
                    assert(out@[i] == before[i]);
                }
            }
            if !has_call(target.body@) {
                assert forall|i: int| 0 <= i < out@.len() && original[i].name@ != target.name@ implies exists|rb: Seq<IRBlock>|
                    blocks_view(rb) == inlined_body(original[i].body@, target.name@, target.parameters@, blocks_view(target.body@))
                        && #[trigger] compacted(rb, out@[i].body@) by {
                    if i < k {
                        assert(out@[i] == before[i]);
                    } else {
                        assert(out@[i] == function);
                        assert(compacted(witness, function.body@));
                    }
                }
                assert forall|i: int, x: Seq<char>| 0 <= i < out@.len() && #[trigger] body_calls(out@[i].body@, x)
                    implies body_calls(original[i].body@, x) by {
                    if i < k {
                        assert(out@[i] == before[i]);
                    }
                }
                assert forall|i: int| 0 <= i < out@.len() && original[i].name@ != target.name@
                    && inline_fits(original[i].body@, target.body@.len()) implies !body_calls(#[trigger] out@[i].body@, target.name@) by {
                    if i < k {
                        assert(out@[i] == before[i]);
                    }
                }
            }
            assert(rest@ =~= original.subrange(out@.len() as int, original.len() as int));
        }
    }
    module.functions = out;
    Ok(())
}

/// A copy keeps a body's ids and jumps.
pub proof fn lemma_copy_positioned(a: Seq<IRBlock>, b: Seq<IRBlock>)
    requires
        crate::ir_generator::domain::same_body(a, b),
        body_wf(b),
        ids_are_positions(b),
    ensures
        body_wf(a),
        ids_are_positions(a),
{
    assert forall|t: usize| #[trigger] referenced(a, t) implies has_block(a, t) by {
        let (x, n) = choose|x: int, n: int| 0 <= x < a.len() && 0 <= n < a[x].nodes@.len() && #[trigger] is_target(a[x].nodes@[n].kind, t);
        assert(same_block(a[x], b[x]));
        assert(is_target(b[x].nodes@[n].kind, t));
        assert(referenced(b, t));
        let i = choose|i: int| 0 <= i < b.len() && #[trigger] b[i].id == t;
        assert(same_block(a[i], b[i]));
        assert(a[i].id == t);
    }
    assert forall|i: int| 0 <= i < a.len() implies #[trigger] a[i].id == i by {
        assert(same_block(a[i], b[i]));
    }
}

/// The indices of the functions that qualify for inlining, in order.
pub open spec fn inline_order(fs: Seq<IRFunction>, idx: Seq<int>) -> bool {
    &&& forall|j: int| 0 <= j < idx.len() ==> 0 <= #[trigger] idx[j] < fs.len() && inlinable(fs[idx[j]])
    &&& forall|j: int, k: int| 0 <= j < k < idx.len() ==> #[trigger] idx[j] < #[trigger] idx[k]
    &&& forall|i: int| 0 <= i < fs.len() && inlinable(#[trigger] fs[i]) ==> exists|j: int| 0 <= j < idx.len() && idx[j] == i
}

/// `chain` runs from `before` to `after`, inlining the functions at `idx`
/// one after the other (see [`inlined_into`]).
pub open spec fn inline_chain(before: Seq<IRFunction>, after: Seq<IRFunction>, idx: Seq<int>, chain: Seq<Seq<IRFunction>>) -> bool {
    &&& chain.len() == idx.len() + 1
    &&& chain[0] == before
    &&& chain.last() == after
    &&& forall|j: int| 0 <= j < idx.len() ==> inlined_into(#[trigger] chain[j], chain[j + 1], before[idx[j]].name@, before[idx[j]].parameters@, before[idx[j]].body@)
}

/// Copies of a body without calls have the same ids and nodes.
proof fn lemma_same_body_view(a: Seq<IRBlock>, b: Seq<IRBlock>)
    requires
        crate::ir_generator::domain::same_body(a, b),
        !has_call(b),
    ensures
        blocks_view(a) == blocks_view(b),
{
    assert forall|x: int| 0 <= x < a.len() implies #[trigger] blocks_view(a)[x] == blocks_view(b)[x] by {
        assert(same_block(a[x], b[x]));
        assert forall|n: int| 0 <= n < a[x].nodes@.len() implies #[trigger] a[x].nodes@[n] == b[x].nodes@[n] by {
            assert(same_kind(a[x].nodes@[n].kind, b[x].nodes@[n].kind));
            if b[x].nodes@[n].kind is FunctionCall {
                assert(has_call(b));
            }
        }
        assert(a[x].nodes@ =~= b[x].nodes@);
    }
    assert(blocks_view(a) =~= blocks_view(b));
}

/// Copies call the same functions.
proof fn lemma_same_body_calls(a: Seq<IRBlock>, b: Seq<IRBlock>)
    requires
        crate::ir_generator::domain::same_body(a, b),
    ensures
        has_call(a) == has_call(b),
{
    if has_call(a) {
        let (x, n) = choose|x: int, n: int| 0 <= x < a.len() && 0 <= n < a[x].nodes@.len() && (#[trigger] a[x].nodes@[n]).kind is FunctionCall;
        assert(same_block(a[x], b[x]));
        assert(same_kind(a[x].nodes@[n].kind, b[x].nodes@[n].kind));
        assert((b[x].nodes@[n]).kind is FunctionCall);
    }
    if has_call(b) {
        let (x, n) = choose|x: int, n: int| 0 <= x < b.len() && 0 <= n < b[x].nodes@.len() && (#[trigger] b[x].nodes@[n]).kind is FunctionCall;
        assert(same_block(a[x], b[x]));
        assert(same_kind(a[x].nodes@[n].kind, b[x].nodes@[n].kind));
        assert((a[x].nodes@[n]).kind is FunctionCall);
    }
}

/// Inlines the functions that qualify ([`inlinable`]) into every other
/// function, in module order. Answers whether any function qualified.
/// Function names, parameters, globals and strings are kept, and every body
/// stays well formed and numbered by position. When something was inlined,
/// the result comes from the input by one [`inlined_into`] step per
/// qualifying function, in order: no function gains a call, and after the
/// step for a function, no other function that fits still calls it.
pub fn inline_functions(module: &mut IRModule) -> (r: Result<bool, IROptimizerError>)
    requires
        positioned(old(module).functions@),
    ensures
        r == Ok::<bool, IROptimizerError>(exists|i: int| 0 <= i < old(module).functions@.len() && inlinable(#[trigger] old(module).functions@[i])),
        r == Ok::<bool, IROptimizerError>(false) ==> *final(module) == *old(module),
        r == Ok::<bool, IROptimizerError>(true) ==> exists|idx: Seq<int>, chain: Seq<Seq<IRFunction>>|
            #![trigger inline_order(old(module).functions@, idx), inline_chain(old(module).functions@, final(module).functions@, idx, chain)]
            inline_order(old(module).functions@, idx) && inline_chain(old(module).functions@, final(module).functions@, idx, chain),
        positioned(final(module).functions@),
        final(module).functions@.len() == old(module).functions@.len(),
        forall|i: int| 0 <= i < old(module).functions@.len() ==> {
            let f = #[trigger] final(module).functions@[i];
            let g = old(module).functions@[i];
            &&& f.name == g.name
            &&& f.parameters == g.parameters
            &&& f.parameter_regs == g.parameter_regs
        },
        final(module).global_variables == old(module).global_variables,
        final(module).strings == old(module).strings,
{
    let ghost fs = module.functions@;
    let ghost mut idx: Seq<int> = Seq::empty();
    let mut targets: Vec<IRFunction> = Vec::new();
    let mut i: usize = 0;
    while i < module.functions.len()
        invariant
            fs == module.functions@,
            i <= module.functions@.len(),
            positioned(module.functions@),
            forall|j: int| 0 <= j < targets@.len() ==> body_wf((#[trigger] targets@[j]).body@) && ids_are_positions(targets@[j].body@),
            (targets@.len() > 0) == exists|j: int| 0 <= j < i && inlinable(#[trigger] module.functions@[j]),
            idx.len() == targets@.len(),
            forall|j: int| 0 <= j < idx.len() ==> 0 <= #[trigger] idx[j] < i && inlinable(fs[idx[j]])
                && targets@[j].name@ == fs[idx[j]].name@ && targets@[j].body@.len() == fs[idx[j]].body@.len()
                && has_call(targets@[j].body@) == has_call(fs[idx[j]].body@)
                && targets@[j].parameters@ == fs[idx[j]].parameters@
                && blocks_view(targets@[j].body@) == blocks_view(fs[idx[j]].body@),
            forall|j: int, k: int| 0 <= j < k < idx.len() ==> #[trigger] idx[j] < #[trigger] idx[k],
            forall|m: int| 0 <= m < i && inlinable(#[trigger] fs[m]) ==> exists|j: int| 0 <= j < idx.len() && idx[j] == m,
        decreases module.functions.len() - i,
    {
        if can_inline(&module.functions[i]) {
            let copy = module.functions[i].clone();
            proof {
                lemma_copy_positioned(copy.body@, module.functions@[i as int].body@);
                lemma_same_body_calls(copy.body@, module.functions@[i as int].body@);
                lemma_same_body_view(copy.body@, module.functions@[i as int].body@);
                let old_idx = idx;
                idx = idx.push(i as int);
                assert forall|m: int| 0 <= m < i + 1 && inlinable(#[trigger] fs[m]) implies exists|j: int| 0 <= j < idx.len() && idx[j] == m by {
                    if m < i {
                        let j = choose|j: int| 0 <= j < old_idx.len() && old_idx[j] == m;
                        assert(idx[j] == m);
                    } else {
                        assert(idx[old_idx.len() as int] == m);
                    }
                }
            }
            let ghost prev = targets@;
            targets.push(copy);
            proof {
                assert forall|j: int| 0 <= j < idx.len() implies 0 <= #[trigger] idx[j] < i + 1 && inlinable(fs[idx[j]])
                    && targets@[j].name@ == fs[idx[j]].name@ && targets@[j].body@.len() == fs[idx[j]].body@.len()
                    && has_call(targets@[j].body@) == has_call(fs[idx[j]].body@)
                    && targets@[j].parameters@ == fs[idx[j]].parameters@
                    && blocks_view(targets@[j].body@) == blocks_view(fs[idx[j]].body@) by {
                    if j < prev.len() {
                        assert(targets@[j] == prev[j]);
                    }
                }
            }
        }
        i += 1;
    }
    if targets.len() == 0 {
        return Ok(false);
    }
    let ghost start = module.functions@;
    let ghost mut chain: Seq<Seq<IRFunction>> = seq![start];
    let mut t: usize = 0;
    while t < targets.len()
        invariant
            t <= targets@.len(),
            forall|j: int| 0 <= j < targets@.len() ==> body_wf((#[trigger] targets@[j]).body@) && ids_are_positions(targets@[j].body@),
            positioned(module.functions@),
            module.functions@.len() == start.len(),
            forall|j: int| 0 <= j < start.len() ==> {
                let f = #[trigger] module.functions@[j];
                let g = start[j];
                &&& f.name == g.name
                &&& f.parameters == g.parameters
                &&& f.parameter_regs == g.parameter_regs
            },
            module.global_variables == old(module).global_variables,
            module.strings == old(module).strings,
            start == old(module).functions@,
            fs == start,
            idx.len() == targets@.len(),
            forall|j: int| 0 <= j < idx.len() ==> 0 <= #[trigger] idx[j] < fs.len() && inlinable(fs[idx[j]])
                && targets@[j].name@ == fs[idx[j]].name@ && targets@[j].body@.len() == fs[idx[j]].body@.len()
                && has_call(targets@[j].body@) == has_call(fs[idx[j]].body@)
                && targets@[j].parameters@ == fs[idx[j]].parameters@
                && blocks_view(targets@[j].body@) == blocks_view(fs[idx[j]].body@),
            chain.len() == t + 1,
            chain[0] == start,
            chain.last() == module.functions@,
            forall|j: int| 0 <= j < t ==> inlined_into(#[trigger] chain[j], chain[j + 1], fs[idx[j]].name@, fs[idx[j]].parameters@, fs[idx[j]].body@),
        decreases targets.len() - t,
    {
        let ghost prev = module.functions@;
        let _ = inline_function(module, &targets[t]);
        proof {
            assert forall|j: int| 0 <= j < start.len() implies {
                let f = #[trigger] module.functions@[j];
                let g = start[j];
                &&& f.name == g.name
                &&& f.parameters == g.parameters
                &&& f.parameter_regs == g.parameter_regs
            } by {
                assert(prev[j].name == start[j].name);
            }
            let ghost old_chain = chain;
            chain = chain.push(module.functions@);
            assert(inlined_into(prev, module.functions@, fs[idx[t as int]].name@, fs[idx[t as int]].parameters@, fs[idx[t as int]].body@));
            assert forall|j: int| 0 <= j < t + 1 implies inlined_into(#[trigger] chain[j], chain[j + 1], fs[idx[j]].name@, fs[idx[j]].parameters@, fs[idx[j]].body@) by {
                if j < t {
                    assert(chain[j] == old_chain[j]);
                    assert(chain[j + 1] == old_chain[j + 1]);
                }
            }
        }
        t += 1;
    }
    proof {
        assert(inline_order(fs, idx));
        assert(inline_chain(fs, module.functions@, idx, chain));
    }
    Ok(true)
}

} // verus!
