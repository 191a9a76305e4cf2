//! Constant propagation: fold, replace every use of a folded temporary by
//! its constant, and repeat until nothing folds any more.
use vstd::prelude::*;
use crate::ir_generator::domain::{
    body_wf, has_block, is_target, referenced, IRBlock, IRFunction, IRModule, IRNode, IRNodeKind, IRValue,
};
use crate::ir_optimizer::error::IROptimizerError;
use crate::ir_optimizer::folder::{
    count_function_nodes, count_nodes, fold_blocks, fold_constants, fold_functions, fold_node, fold_nodes,
    bodies_replaced, FoldedRegister,
};
use crate::virtual_register::VirtualRegister;

verus! {

/// The constant recorded for a register; the last entry for it wins.
pub open spec fn folded_lookup(es: Seq<FoldedRegister>, reg: VirtualRegister) -> Option<IRValue>
    decreases es.len(),
{
    if es.len() == 0 {
        None
    } else if es.last().0 == reg {
        Some(es.last().1)
    } else {
        folded_lookup(es.drop_last(), reg)
    }
}

/// The constant recorded for a register is the one of its last entry, and
/// a register without an entry has none.
pub proof fn lemma_folded_lookup(es: Seq<FoldedRegister>, reg: VirtualRegister)
    ensures
        forall|i: int| 0 <= i < es.len() && es[i].0 == reg && (forall|j: int| i < j < es.len() ==> es[j].0 != reg) ==> folded_lookup(es, reg) == Some(#[trigger] es[i].1),
        (forall|i: int| 0 <= i < es.len() ==> es[i].0 != reg) ==> folded_lookup(es, reg) is None,
    decreases es.len(),
{
    if es.len() > 0 {
        lemma_folded_lookup(es.drop_last(), reg);
        assert forall|i: int| 0 <= i < es.len() && es[i].0 == reg && (forall|j: int| i < j < es.len() ==> es[j].0 != reg)
            implies folded_lookup(es, reg) == Some(#[trigger] es[i].1) by {
            if i < es.len() - 1 {
                assert(es[es.len() - 1].0 != reg);
                assert(es.drop_last()[i] == es[i]);
            }
        }
        if forall|i: int| 0 <= i < es.len() ==> es[i].0 != reg {
            assert(es[es.len() - 1].0 != reg);
            assert forall|i: int| 0 <= i < es.drop_last().len() implies es.drop_last()[i].0 != reg by {
                assert(es.drop_last()[i] == es[i]);
            }
        }
    }
}

/// A register operand with a recorded constant becomes that constant; any
/// other operand stays.
pub open spec fn value_replaced(v: IRValue, es: Seq<FoldedRegister>) -> IRValue {
    match v {
        IRValue::Register(reg) => match folded_lookup(es, reg) {
            Some(c) => c,
            None => v,
        },
        _ => v,
    }
}

pub open spec fn option_replaced(v: Option<IRValue>, es: Seq<FoldedRegister>) -> Option<IRValue> {
    match v {
        Some(x) => Some(value_replaced(x, es)),
        None => None,
    }
}

/// `after` is `before` with every operand replaced by [`value_replaced`];
/// results, targets and the register that a `lea` indexes by stay.
pub open spec fn node_replaced(before: IRNodeKind, after: IRNodeKind, es: Seq<FoldedRegister>) -> bool {
    match before {
        IRNodeKind::Assign { variable, value } => after == IRNodeKind::Assign {
            variable,
            value: value_replaced(value, es),
        },
        IRNodeKind::AddressAssignment { address, value } => after == IRNodeKind::AddressAssignment {
            address: value_replaced(address, es),
            value: value_replaced(value, es),
        },
        IRNodeKind::Lea { base, index, scaler, result } => after == IRNodeKind::Lea {
            base: value_replaced(base, es),
            index,
            scaler,
            result,
        },
        IRNodeKind::BinaryOp { op, left, right, result, optional_result } => after == IRNodeKind::BinaryOp {
            op,
            left: value_replaced(left, es),
            right: value_replaced(right, es),
            result,
            optional_result,
        },
        IRNodeKind::UnaryOp { op, operand, result } => after == IRNodeKind::UnaryOp {
            op,
            operand: value_replaced(operand, es),
            result,
        },
        IRNodeKind::FunctionCall { name, arguments, argument_regs, result } => after matches IRNodeKind::FunctionCall {
            name: n2,
            arguments: a2,
            argument_regs: g2,
            result: r2,
        } && n2 == name && g2@ == argument_regs@ && r2 == result && a2@.len() == arguments@.len()
            && forall|j: int| 0 <= j < arguments@.len() ==> #[trigger] a2@[j] == value_replaced(arguments@[j], es),
        IRNodeKind::Branch { condition, true_branch, false_branch } => after == IRNodeKind::Branch {
            condition: option_replaced(condition, es),
            true_branch,
            false_branch,
        },
        IRNodeKind::Return { value } => after == IRNodeKind::Return { value: option_replaced(value, es) },
        _ => after == before,
    }
}

/// The value with a folded register replaced by its constant.
fn replace_with_folded(value: &IRValue, folded: &Vec<FoldedRegister>) -> (r: IRValue)
    ensures
        r == value_replaced(*value, folded@),
{
    if let IRValue::Register(reg) = value {
        let mut i: usize = folded.len();
        proof {
            assert(folded@.subrange(0, i as int) =~= folded@);
        }
        while i > 0
            invariant
                *value == IRValue::Register(*reg),
                i <= folded@.len(),
                folded_lookup(folded@, *reg) == folded_lookup(folded@.subrange(0, i as int), *reg),
            decreases i,
        {
            proof {
                assert(folded@.subrange(0, i as int).drop_last() =~= folded@.subrange(0, i - 1));
                assert(folded@.subrange(0, i as int).last() == folded@[i - 1]);
            }
            if folded[i - 1].0 == *reg {
                proof {
                    assert(folded_lookup(folded@.subrange(0, i as int), *reg) == Some(folded@[i - 1].1));
                }
                return folded[i - 1].1.clone();
            }
            i -= 1;
        }
        value.clone()
    } else {
        value.clone()
    }
}

fn replace_option(value: &Option<IRValue>, folded: &Vec<FoldedRegister>) -> (r: Option<IRValue>)
    ensures
        r == option_replaced(*value, folded@),
{
    match value {
        Some(v) => Some(replace_with_folded(v, folded)),
        None => None,
    }
}

/// Replaces every operand of a node that is a folded register by its
/// constant.
fn replace_value(node: &mut IRNode, folded: &Vec<FoldedRegister>)
    ensures
        node_replaced(old(node).kind, final(node).kind, folded@),
{
    let kind = match &node.kind {
        IRNodeKind::Assign { variable, value } => IRNodeKind::Assign {
            variable: variable.clone(),
            value: replace_with_folded(value, folded),
        },
        IRNodeKind::AddressAssignment { address, value } => IRNodeKind::AddressAssignment {
            address: replace_with_folded(address, folded),
            value: replace_with_folded(value, folded),
        },
        IRNodeKind::Lea { base, index, scaler, result } => IRNodeKind::Lea {
            base: replace_with_folded(base, folded),
            index: *index,
            scaler: *scaler,
            result: *result,
        },
        IRNodeKind::BinaryOp { op, left, right, result, optional_result } => IRNodeKind::BinaryOp {
            op: *op,
            left: replace_with_folded(left, folded),
            right: replace_with_folded(right, folded),
            result: *result,
            optional_result: *optional_result,
        },
        IRNodeKind::UnaryOp { op, operand, result } => IRNodeKind::UnaryOp {
            op: *op,
            operand: replace_with_folded(operand, folded),
            result: *result,
        },
        IRNodeKind::FunctionCall { name, arguments, argument_regs, result } => {
            let mut args: Vec<IRValue> = Vec::new();
            let mut i: usize = 0;
            while i < arguments.len()
                invariant
                    i <= arguments@.len(),
                    args@.len() == i,
                    forall|j: int| 0 <= j < i ==> #[trigger] args@[j] == value_replaced(arguments@[j], folded@),
                decreases arguments.len() - i,
            {
                args.push(replace_with_folded(&arguments[i], folded));
                i += 1;
            }
            IRNodeKind::FunctionCall {
                name: name.clone(),
                arguments: args,
                argument_regs: crate::ir_generator::domain::clone_registers(argument_regs),
                result: *result,
            }
        },
        IRNodeKind::Branch { condition, true_branch, false_branch } => IRNodeKind::Branch {
            condition: replace_option(condition, folded),
            true_branch: *true_branch,
            false_branch: *false_branch,
        },
        IRNodeKind::Return { value } => IRNodeKind::Return { value: replace_option(value, folded) },
        _ => {
            return;
        },
    };
    node.kind = kind;
}

/// Functions with the same names, parameters, block counts and block ids,
/// and blocks with the same number of nodes... except that the node counts
/// may differ; only the outline is compared.
pub open spec fn same_outline(a: Seq<IRFunction>, b: Seq<IRFunction>) -> bool {
    &&& a.len() == b.len()
    &&& forall|i: int| 0 <= i < a.len() ==> {
        let f = #[trigger] a[i];
        let g = b[i];
        &&& f.name == g.name
        &&& f.parameters == g.parameters
        &&& f.parameter_regs == g.parameter_regs
        &&& f.body@.len() == g.body@.len()
        &&& forall|j: int| 0 <= j < f.body@.len() ==> (#[trigger] f.body@[j]).id == g.body@[j].id
    }
}

/// No node of the module changes under folding: nothing left to fold.
pub open spec fn fold_stable(fs: Seq<IRFunction>) -> bool {
    forall|i: int, j: int, n: int|
        0 <= i < fs.len() && 0 <= j < fs[i].body@.len() && 0 <= n < fs[i].body@[j].nodes@.len() ==> fold_node(
            #[trigger] fs[i].body@[j].nodes@[n].kind,
        ) == Some((fs[i].body@[j].nodes@[n].kind, None::<FoldedRegister>))
}

fn replace_in_nodes(nodes: Vec<IRNode>, folded: &Vec<FoldedRegister>) -> (r: Vec<IRNode>)
    ensures
        r@.len() == nodes@.len(),
        forall|n: int| 0 <= n < nodes@.len() ==> node_replaced(nodes@[n].kind, #[trigger] r@[n].kind, folded@),
{
    let ghost original = nodes@;
    let mut rest = nodes;
    let mut out: Vec<IRNode> = Vec::new();
    while rest.len() > 0
        invariant
            original == nodes@,
            out@.len() + rest@.len() == original.len(),
            rest@ == original.subrange(out@.len() as int, original.len() as int),
            forall|n: int| 0 <= n < out@.len() ==> node_replaced(original[n].kind, #[trigger] out@[n].kind, folded@),
        decreases rest.len(),
    {
        let mut node = rest.remove(0);
        proof {
            assert(node == original[out@.len() as int]);
        }
        replace_value(&mut node, folded);
        out.push(node);
        proof {
            assert(rest@ =~= original.subrange(out@.len() as int, original.len() as int));
        }
    }
    out
}

/// Replacing operands changes no jump target.
proof fn lemma_replaced_targets(before: IRNodeKind, after: IRNodeKind, es: Seq<FoldedRegister>, t: usize)
    requires
        node_replaced(before, after, es),
    ensures
        is_target(after, t) == is_target(before, t),
{
}

fn replace_in_body(body: Vec<IRBlock>, folded: &Vec<FoldedRegister>) -> (r: Vec<IRBlock>)
    ensures
        r@.len() == body@.len(),
        forall|j: int| 0 <= j < body@.len() ==> {
            let a = body@[j];
            let b = #[trigger] r@[j];
            &&& b.id == a.id
            &&& b.nodes@.len() == a.nodes@.len()
            &&& forall|n: int| 0 <= n < a.nodes@.len() ==> node_replaced(a.nodes@[n].kind, #[trigger] b.nodes@[n].kind, folded@)
        },
        count_nodes(r@) == count_nodes(body@),
        body_wf(body@) ==> body_wf(r@),
{
    let ghost original = body@;
    let mut rest = body;
    let mut out: Vec<IRBlock> = Vec::new();
    while rest.len() > 0
        invariant
            original == body@,
            out@.len() + rest@.len() == original.len(),
            rest@ == original.subrange(out@.len() as int, original.len() as int),
            forall|j: int| 0 <= j < out@.len() ==> {
                let a = original[j];
                let b = #[trigger] out@[j];
                &&& b.id == a.id
                &&& b.nodes@.len() == a.nodes@.len()
                &&& forall|n: int| 0 <= n < a.nodes@.len() ==> node_replaced(a.nodes@[n].kind, #[trigger] b.nodes@[n].kind, folded@)
            },
            count_nodes(out@) == count_nodes(original.subrange(0, out@.len() as int)),
        decreases rest.len(),
    {
        let block = rest.remove(0);
        let ghost k: int = out@.len() as int;
        proof {
            assert(block == original[k as int]);
            assert(original.subrange(0, k + 1).drop_last() =~= original.subrange(0, k as int));
        }
        let ghost before = out@;
        let IRBlock { id, nodes } = block;
        out.push(IRBlock { id, nodes: replace_in_nodes(nodes, folded) });
        proof {
            assert(out@.drop_last() =~= before);
            assert forall|j: int| 0 <= j < out@.len() implies {
                let a = original[j];
                let b = #[trigger] out@[j];
                &&& b.id == a.id
                &&& b.nodes@.len() == a.nodes@.len()
                &&& forall|n: int| 0 <= n < a.nodes@.len() ==> node_replaced(a.nodes@[n].kind, #[trigger] b.nodes@[n].kind, folded@)
            } by {
                if j < k {
                    assert(out@[j] == before[j]);
                }
            }
            assert(rest@ =~= original.subrange(out@.len() as int, original.len() as int));
        }
    }
    proof {
        assert(original.subrange(0, out@.len() as int) =~= original);
        if body_wf(original) {
            assert forall|t: usize| #[trigger] referenced(out@, t) implies has_block(out@, t) by {
                let (b, m) = choose|b: int, m: int| 0 <= b < out@.len() && 0 <= m < out@[b].nodes@.len()
                    && #[trigger] is_target(out@[b].nodes@[m].kind, t);
                lemma_replaced_targets(original[b].nodes@[m].kind, out@[b].nodes@[m].kind, folded@, t);
                assert(referenced(original, t));
                let i = choose|i: int| 0 <= i < original.len() && #[trigger] original[i].id == t;
                assert(out@[i].id == t);
            }
            assert forall|i: int, j: int| 0 <= i < out@.len() && 0 <= j < out@.len() && #[trigger] out@[i].id == #[trigger] out@[j].id implies i == j by {
                assert(original[i].id == original[j].id);
            }
        }
    }
    out
}

/// A block with every node's operands replaced by [`node_replaced`].
pub open spec fn blocks_replaced(a: IRBlock, b: IRBlock, es: Seq<FoldedRegister>) -> bool {
    &&& b.id == a.id
    &&& b.nodes@.len() == a.nodes@.len()
    &&& forall|n: int| 0 <= n < a.nodes@.len() ==> node_replaced(a.nodes@[n].kind, #[trigger] b.nodes@[n].kind, es)
}

/// `b` is `a` with the recorded registers replaced in every node.
pub open spec fn operands_replaced(a: Seq<IRFunction>, b: Seq<IRFunction>, es: Seq<FoldedRegister>) -> bool {
    &&& same_outline(b, a)
    &&& forall|i: int, j: int| 0 <= i < a.len() && 0 <= j < a[i].body@.len() ==> blocks_replaced(
        a[i].body@[j],
        #[trigger] b[i].body@[j],
        es,
    )
}

/// One round of propagation from `a` to `b`: folding succeeds and records
/// some registers, which are then replaced in the folded module.
pub open spec fn propagation_step(a: Seq<IRFunction>, b: Seq<IRFunction>) -> bool {
    match fold_functions(a) {
        Some((ns, es)) => es.len() > 0 && exists|mid: Seq<IRFunction>|
            #[trigger] bodies_replaced(a, mid, ns) && operands_replaced(mid, b, es),
        None => false,
    }
}

/// Within `d` rounds from `a`, a fold fails (a constant division by zero or
/// `i64::MIN / -1`).
pub open spec fn propagation_fails(a: Seq<IRFunction>, d: nat) -> bool
    decreases d,
{
    fold_functions(a) is None || (d > 0 && exists|b: Seq<IRFunction>|
        #[trigger] propagation_step(a, b) && propagation_fails(b, (d - 1) as nat))
}

/// Within `d` rounds, propagation from `a` ends in `z`: the last fold
/// succeeds and records nothing, and `z` is its result.
pub open spec fn propagates_to(a: Seq<IRFunction>, z: Seq<IRFunction>, d: nat) -> bool
    decreases d,
{
    (match fold_functions(a) {
        Some((ns, es)) => es.len() == 0 && bodies_replaced(a, z, ns),
        None => false,
    }) || (d > 0 && exists|b: Seq<IRFunction>| #[trigger] propagation_step(a, b) && propagates_to(b, z, (d - 1) as nat))
}

/// Replaces the folded registers in every node of the module.
fn replace_in_module(module: &mut IRModule, folded: &Vec<FoldedRegister>)
    ensures
        same_outline(final(module).functions@, old(module).functions@),
        operands_replaced(old(module).functions@, final(module).functions@, folded@),
        count_function_nodes(final(module).functions@) == count_function_nodes(old(module).functions@),
        old(module).wf() ==> final(module).wf(),
        final(module).global_variables == old(module).global_variables,
        final(module).strings == old(module).strings,
{
    let ghost original = module.functions@;
    let mut rest: Vec<IRFunction> = Vec::new();
    std::mem::swap(&mut rest, &mut module.functions);
    let mut out: Vec<IRFunction> = Vec::new();
    while rest.len() > 0
        invariant
            original == old(module).functions@,
            module.global_variables == old(module).global_variables,
            module.strings == old(module).strings,
            out@.len() + rest@.len() == original.len(),
            rest@ == original.subrange(out@.len() as int, original.len() as int),
            same_outline(out@, original.subrange(0, out@.len() as int)),
            forall|i: int, j: int| 0 <= i < out@.len() && 0 <= j < original[i].body@.len() ==> blocks_replaced(
                original[i].body@[j],
                #[trigger] out@[i].body@[j],
                folded@,
            ),
            forall|j: int| 0 <= j < out@.len() && body_wf(original[j].body@) ==> body_wf((#[trigger] out@[j]).body@),
            count_function_nodes(out@) == count_function_nodes(original.subrange(0, out@.len() as int)),
        decreases rest.len(),
    {
        let function = rest.remove(0);
        let ghost k: int = out@.len() as int;
        proof {
            assert(function == original[k as int]);
            assert(original.subrange(0, k + 1).drop_last() =~= original.subrange(0, k as int));
        }
        let ghost before = out@;
        let IRFunction { name, parameters, parameter_regs, body } = function;
        let new_body = replace_in_body(body, folded);
        out.push(IRFunction { name, parameters, parameter_regs, body: new_body });
        proof {
            assert(out@.drop_last() =~= before);
            let sub = original.subrange(0, k + 1);
            assert forall|i: int| 0 <= i < out@.len() implies {
                let f = #[trigger] out@[i];
                let g = sub[i];
                &&& f.name == g.name
                &&& f.parameters == g.parameters
                &&& f.parameter_regs == g.parameter_regs
                &&& f.body@.len() == g.body@.len()
                &&& forall|j: int| 0 <= j < f.body@.len() ==> (#[trigger] f.body@[j]).id == g.body@[j].id
            } by {
                if i < k {
                    assert(out@[i] == before[i]);
                    assert(sub[i] == original.subrange(0, k as int)[i]);
                }
            }
            assert forall|j: int| 0 <= j < out@.len() && body_wf(original[j].body@) implies body_wf((#[trigger] out@[j]).body@) by {
                if j < k {
                    assert(out@[j] == before[j]);
                }
            }
            assert forall|i: int, j: int| 0 <= i < out@.len() && 0 <= j < original[i].body@.len() implies blocks_replaced(
                original[i].body@[j],
                #[trigger] out@[i].body@[j],
                folded@,
            ) by {
                if i < k {
                    assert(out@[i] == before[i]);
                }
            }
            assert(rest@ =~= original.subrange(out@.len() as int, original.len() as int));
        }
    }
    proof {
        assert(original.subrange(0, out@.len() as int) =~= original);
    }
    module.functions = out;
}

/// Folding a node that stays, with no entry, gives a node that folding
/// leaves alone.
proof fn lemma_fold_node_idempotent(k: IRNodeKind)
    requires
        fold_node(k) matches Some((k2, e)) && e is None,
    ensures
        fold_node((fold_node(k)->0).0) == Some(((fold_node(k)->0).0, None::<FoldedRegister>)),
{
}

/// A fold that records nothing leaves only nodes that folding leaves alone.
proof fn lemma_fold_nodes_stable(s: Seq<IRNode>)
    requires
        fold_nodes(s) matches Some((ns, es)) && es.len() == 0,
    ensures
        forall|n: int| 0 <= n < (fold_nodes(s)->0).0.len() ==> fold_node(#[trigger] (fold_nodes(s)->0).0[n].kind)
            == Some(((fold_nodes(s)->0).0[n].kind, None::<FoldedRegister>)),
    decreases s.len(),
{
    if s.len() > 0 {
        let p = s.drop_last();
        let ns = (fold_nodes(s)->0).0;
        lemma_fold_nodes_stable(p);
        let pns = (fold_nodes(p)->0).0;
        lemma_fold_node_idempotent(s.last().kind);
        assert forall|n: int| 0 <= n < ns.len() implies fold_node(#[trigger] ns[n].kind) == Some((ns[n].kind, None::<FoldedRegister>)) by {
            if n < pns.len() {
                assert(ns[n] == pns[n]);
            }
        }
    }
}

proof fn lemma_fold_blocks_stable(bs: Seq<IRBlock>)
    requires
        fold_blocks(bs) matches Some((ns, es)) && es.len() == 0,
    ensures
        forall|j: int| 0 <= j < bs.len() ==> (fold_nodes(#[trigger] bs[j].nodes@) is Some && (fold_nodes(bs[j].nodes@)->0).1.len() == 0
            && (fold_nodes(bs[j].nodes@)->0).0 == (fold_blocks(bs)->0).0[j]),
        (fold_blocks(bs)->0).0.len() == bs.len(),
    decreases bs.len(),
{
    if bs.len() > 0 {
        let p = bs.drop_last();
        lemma_fold_blocks_stable(p);
        assert forall|j: int| 0 <= j < bs.len() implies (fold_nodes(#[trigger] bs[j].nodes@) is Some && (fold_nodes(bs[j].nodes@)->0).1.len() == 0
            && (fold_nodes(bs[j].nodes@)->0).0 == (fold_blocks(bs)->0).0[j]) by {
            if j < p.len() {
                assert(bs[j] == p[j]);
            }
        }
    }
}

proof fn lemma_fold_functions_stable(fs: Seq<IRFunction>)
    requires
        fold_functions(fs) matches Some((ns, es)) && es.len() == 0,
    ensures
        forall|i: int| 0 <= i < fs.len() ==> (fold_blocks(#[trigger] fs[i].body@) is Some && (fold_blocks(fs[i].body@)->0).1.len() == 0
            && (fold_blocks(fs[i].body@)->0).0 == (fold_functions(fs)->0).0[i]),
        (fold_functions(fs)->0).0.len() == fs.len(),
    decreases fs.len(),
{
    if fs.len() > 0 {
        let p = fs.drop_last();
        lemma_fold_functions_stable(p);
        assert forall|i: int| 0 <= i < fs.len() implies (fold_blocks(#[trigger] fs[i].body@) is Some && (fold_blocks(fs[i].body@)->0).1.len() == 0
            && (fold_blocks(fs[i].body@)->0).0 == (fold_functions(fs)->0).0[i]) by {
            if i < p.len() {
                assert(fs[i] == p[i]);
            }
        }
    }
}

/// Folding that records nothing leaves a module where nothing folds.
proof fn lemma_fold_leaves_stable(before: Seq<IRFunction>, after: Seq<IRFunction>)
    requires
        fold_functions(before) matches Some((ns, es)) && es.len() == 0,
        bodies_replaced(before, after, (fold_functions(before)->0).0),
    ensures
        fold_stable(after),
{
    lemma_fold_functions_stable(before);
    let ns = (fold_functions(before)->0).0;
    assert forall|i: int, j: int, n: int|
        0 <= i < after.len() && 0 <= j < after[i].body@.len() && 0 <= n < after[i].body@[j].nodes@.len() implies fold_node(
            #[trigger] after[i].body@[j].nodes@[n].kind,
        ) == Some((after[i].body@[j].nodes@[n].kind, None::<FoldedRegister>)) by {
        let g = before[i];
        lemma_fold_blocks_stable(g.body@);
        lemma_fold_nodes_stable(g.body@[j].nodes@);
        assert(after[i].body@[j].nodes@ == ns[i][j]);
    }
}

proof fn lemma_outline_trans(a: Seq<IRFunction>, b: Seq<IRFunction>, c: Seq<IRFunction>)
    requires
        same_outline(a, b),
        same_outline(b, c),
    ensures
        same_outline(a, c),
{
    assert forall|i: int| 0 <= i < a.len() implies {
        let f = #[trigger] a[i];
        let g = c[i];
        &&& f.name == g.name
        &&& f.parameters == g.parameters
        &&& f.parameter_regs == g.parameter_regs
        &&& f.body@.len() == g.body@.len()
        &&& forall|j: int| 0 <= j < f.body@.len() ==> (#[trigger] f.body@[j]).id == g.body@[j].id
    } by {
        let f = a[i];
        let h = b[i];
        assert forall|j: int| 0 <= j < f.body@.len() implies (#[trigger] f.body@[j]).id == c[i].body@[j].id by {
            assert(h.body@[j].id == c[i].body@[j].id);
        }
    }
}

/// Folds and substitutes until a fold records nothing. On success nothing
/// in the module folds any more, and the outline of every function (names,
/// parameters, blocks and their ids) is unchanged; a well-formed module
/// stays well formed. Fails when a fold fails.
pub fn propagate_constants(module: &mut IRModule) -> (r: Result<(), IROptimizerError>)
    ensures
        r is Ok ==> fold_stable(final(module).functions@),
        r is Ok ==> same_outline(final(module).functions@, old(module).functions@),
        r is Ok ==> (old(module).wf() ==> final(module).wf()),
        r is Ok ==> final(module).global_variables == old(module).global_variables,
        r is Ok ==> final(module).strings == old(module).strings,
        r is Ok ==> exists|d: nat| #[trigger] propagates_to(old(module).functions@, final(module).functions@, d),
        r is Err ==> exists|d: nat| #[trigger] propagation_fails(old(module).functions@, d),
        fold_functions(old(module).functions@) is None ==> r is Err,
    decreases count_function_nodes(old(module).functions@),
{
    let ghost before = module.functions@;
    let folded = match fold_constants(module) {
        Ok(f) => f,
        Err(e) => {
            proof {
                assert(propagation_fails(before, 0));
            }
            return Err(e);
        },
    };
    proof {
        let ns = (fold_functions(before)->0).0;
        assert forall|i: int| 0 <= i < module.functions@.len() implies {
            let f = #[trigger] module.functions@[i];
            let g = before[i];
            &&& f.name == g.name
            &&& f.parameters == g.parameters
            &&& f.parameter_regs == g.parameter_regs
            &&& f.body@.len() == g.body@.len()
            &&& forall|j: int| 0 <= j < f.body@.len() ==> (#[trigger] f.body@[j]).id == g.body@[j].id
        } by {
            let f = module.functions@[i];
            assert forall|j: int| 0 <= j < f.body@.len() implies (#[trigger] f.body@[j]).id == before[i].body@[j].id by {
                assert(f.body@[j].id == before[i].body@[j].id && f.body@[j].nodes@ == ns[i][j]);
            }
        }
    }
    if folded.len() == 0 {
        proof {
            lemma_fold_leaves_stable(before, module.functions@);
            assert(propagates_to(before, module.functions@, 0));
        }
        return Ok(());
    }
    let ghost middle = module.functions@;
    replace_in_module(module, &folded);
    let ghost after_replace = module.functions@;
    let r = propagate_constants(module);
    proof {
        assert(propagation_step(before, after_replace)) by {
            let ns = (fold_functions(before)->0).0;
            assert(bodies_replaced(before, middle, ns));
        }
        if r is Ok {
            lemma_outline_trans(module.functions@, after_replace, middle);
            lemma_outline_trans(module.functions@, middle, before);
            let d = choose|d: nat| #[trigger] propagates_to(after_replace, module.functions@, d);
            assert(propagates_to(before, module.functions@, d + 1));
        } else {
            let d = choose|d: nat| #[trigger] propagation_fails(after_replace, d);
            assert(propagation_fails(before, d + 1));
        }
    }
    r
}

} // verus!
