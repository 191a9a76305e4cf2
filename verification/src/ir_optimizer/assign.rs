//! Copy elimination: a temporary computed and then copied into another
//! register is computed into that register directly.
//!
//! ```text
//!   %1 = ...          becomes      %2 = ...
//!   %2 = %1
//! ```
use vstd::prelude::*;
use crate::ir_generator::domain::{
    body_wf, has_block, is_target, referenced, IRBlock, IRFunction, IRModule, IRNode, IRNodeKind, IRValue,
    IRVariable,
};
use crate::ir_optimizer::error::IROptimizerError;
use crate::ir_optimizer::folder::targets_within;
use crate::ir_optimizer::propagator::same_outline;

verus! {

/// When `assign` copies the temporary that `calc` defines into another
/// register, the node that computes straight into that register. A call's
/// result is only redirected into a temporary (the call returns in `%rax`).
pub open spec fn merge_step(calc: IRNodeKind, assign: IRNodeKind) -> Option<IRNodeKind> {
    match assign {
        IRNodeKind::Assign { variable: IRVariable::Register(assign_reg), value: IRValue::Register(assign_value) } => {
            match calc {
                IRNodeKind::Assign { variable: IRVariable::Register(calc_reg), value: calc_value } => {
                    if !calc_reg.stored && calc_reg == assign_value {
                        Some(IRNodeKind::Assign { variable: IRVariable::Register(assign_reg), value: calc_value })
                    } else {
                        None
                    }
                },
                IRNodeKind::Lea { base, index, scaler, result } => {
                    if !result.stored && result == assign_value {
                        Some(IRNodeKind::Lea { base, index, scaler, result: assign_reg })
                    } else {
                        None
                    }
                },
                IRNodeKind::BinaryOp { op, left, right, result, optional_result } => {
                    if !result.stored && result == assign_value {
                        Some(IRNodeKind::BinaryOp { op, left, right, result: assign_reg, optional_result })
                    } else {
                        None
                    }
                },
                IRNodeKind::UnaryOp { op, operand, result } => {
                    if !result.stored && result == assign_value {
                        Some(IRNodeKind::UnaryOp { op, operand, result: assign_reg })
                    } else {
                        None
                    }
                },
                IRNodeKind::FunctionCall { name, arguments, argument_regs, result: Some(r) } => {
                    if !r.stored && r == assign_value && !assign_reg.stored {
                        Some(IRNodeKind::FunctionCall { name, arguments, argument_regs, result: Some(assign_reg) })
                    } else {
                        None
                    }
                },
                _ => None,
            }
        },
        _ => None,
    }
}

/// The nodes after the pairs at positions `0..k` have been examined, left to
/// right: each merge rewrites the first node of its pair (the copy that
/// follows is removed at the end, but is still examined as the first node
/// of the next pair).
pub open spec fn merge_state(s: Seq<IRNode>, k: nat) -> Seq<IRNode>
    decreases k,
{
    if k == 0 {
        s
    } else {
        let p = merge_state(s, (k - 1) as nat);
        if k < s.len() {
            match merge_step(p[k - 1].kind, p[k as int].kind) {
                Some(n) => p.update(k - 1, IRNode { kind: n }),
                None => p,
            }
        } else {
            p
        }
    }
}

/// The copy at position `i` was folded into the node before it.
pub open spec fn merge_removed(s: Seq<IRNode>, i: int) -> bool {
    1 <= i < s.len() && merge_step(merge_state(s, (i - 1) as nat)[i - 1].kind, merge_state(s, (i - 1) as nat)[i].kind) is Some
}

/// The nodes of `t` at positions below `k` whose copy was not removed.
pub open spec fn kept_nodes(t: Seq<IRNode>, s: Seq<IRNode>, k: int) -> Seq<IRNode>
    decreases k,
{
    if k <= 0 {
        Seq::empty()
    } else if merge_removed(s, k - 1) {
        kept_nodes(t, s, k - 1)
    } else {
        kept_nodes(t, s, k - 1).push(t[k - 1])
    }
}

/// A block's nodes after copy elimination.
pub open spec fn merged_nodes(s: Seq<IRNode>) -> Seq<IRNode> {
    kept_nodes(merge_state(s, s.len()), s, s.len() as int)
}

proof fn lemma_merge_state_shape(s: Seq<IRNode>, k: nat)
    ensures
        merge_state(s, k).len() == s.len(),
        forall|j: int| k <= j < s.len() ==> #[trigger] merge_state(s, k)[j] == s[j],
        forall|j: int| 0 <= j < s.len() ==> (#[trigger] merge_state(s, k)[j] == s[j] || !(merge_state(s, k)[j].kind is Branch)),
    decreases k,
{
    if k > 0 {
        lemma_merge_state_shape(s, (k - 1) as nat);
    }
}

proof fn lemma_merge_state_stable(s: Seq<IRNode>, k: nat, m: nat)
    requires
        k <= m,
    ensures
        forall|j: int| 0 <= j < k - 1 ==> #[trigger] merge_state(s, m)[j] == merge_state(s, k)[j],
    decreases m - k,
{
    if k < m {
        lemma_merge_state_stable(s, k, (m - 1) as nat);
        lemma_merge_state_shape(s, (m - 1) as nat);
    }
}

/// The node that `calc` becomes when followed by `assign`, and whether the
/// copy merged into it.
fn merge_into(calc: IRNode, assign: &IRNodeKind) -> (r: (IRNode, bool))
    ensures
        r.1 == merge_step(calc.kind, *assign) is Some,
        r.0.kind == if r.1 {
            merge_step(calc.kind, *assign)->0
        } else {
            calc.kind
        },
{
    let (assign_reg, assign_value) = match assign {
        IRNodeKind::Assign { variable: IRVariable::Register(ar), value: IRValue::Register(av) } => (*ar, *av),
        _ => {
            return (calc, false);
        },
    };
    match calc.kind {
        IRNodeKind::Assign { variable, value } => {
            let hit = match &variable {
                IRVariable::Register(calc_reg) => !calc_reg.stored && *calc_reg == assign_value,
                IRVariable::Global(_) => false,
            };
            if hit {
                (IRNode { kind: IRNodeKind::Assign { variable: IRVariable::Register(assign_reg), value } }, true)
            } else {
                (IRNode { kind: IRNodeKind::Assign { variable, value } }, false)
            }
        },
        IRNodeKind::Lea { base, index, scaler, result } => {
            if !result.stored && result == assign_value {
                (IRNode { kind: IRNodeKind::Lea { base, index, scaler, result: assign_reg } }, true)
            } else {
                (IRNode { kind: IRNodeKind::Lea { base, index, scaler, result } }, false)
            }
        },
        IRNodeKind::BinaryOp { op, left, right, result, optional_result } => {
            if !result.stored && result == assign_value {
                (IRNode { kind: IRNodeKind::BinaryOp { op, left, right, result: assign_reg, optional_result } }, true)
            } else {
                (IRNode { kind: IRNodeKind::BinaryOp { op, left, right, result, optional_result } }, false)
            }
        },
        IRNodeKind::UnaryOp { op, operand, result } => {
            if !result.stored && result == assign_value {
                (IRNode { kind: IRNodeKind::UnaryOp { op, operand, result: assign_reg } }, true)
            } else {
                (IRNode { kind: IRNodeKind::UnaryOp { op, operand, result } }, false)
            }
        },
        IRNodeKind::FunctionCall { name, arguments, argument_regs, result } => {
            let hit = match result {
                Some(r) => !r.stored && r == assign_value && !assign_reg.stored,
                None => false,
            };
            if hit {
                (IRNode { kind: IRNodeKind::FunctionCall { name, arguments, argument_regs, result: Some(assign_reg) } }, true)
            } else {
                (IRNode { kind: IRNodeKind::FunctionCall { name, arguments, argument_regs, result } }, false)
            }
        },
        other => (IRNode { kind: other }, false),
    }
}

/// Copy elimination on one block.
fn merge_block(nodes: Vec<IRNode>) -> (r: Vec<IRNode>)
    ensures
        r@ == merged_nodes(nodes@),
        targets_within(r@, nodes@),
{
    let ghost original = nodes@;
    let len: usize = nodes.len();
    let mut nodes = nodes;
    let mut index: usize = 0;
    let mut removed: Vec<bool> = Vec::new();
    if len > 0 {
        removed.push(false);
    }
    proof {
        lemma_merge_state_shape(original, 0);
    }
    while len > 0 && index < len - 1
        invariant
            len == original.len(),
            index < len || (len == 0 && index == 0),
            len > 0 ==> index + 1 <= len,
            nodes@ == merge_state(original, index as nat),
            removed@.len() == if len == 0 { 0 } else { index + 1 },
            forall|i: int| 0 <= i < removed@.len() ==> #[trigger] removed@[i] == merge_removed(original, i),
        decreases len - index,
    {
        proof {
            lemma_merge_state_shape(original, index as nat);
        }
        let calc = nodes.remove(index);
        let (n, merged) = merge_into(calc, &nodes[index].kind);
        nodes.insert(index, n);
        removed.push(merged);
        proof {
            let p = merge_state(original, index as nat);
            assert(merge_state(original, (index + 1) as nat) == match merge_step(p[index as int].kind, p[index + 1].kind) {
                Some(m) => p.update(index as int, IRNode { kind: m }),
                None => p,
            });
            assert(nodes@ =~= merge_state(original, (index + 1) as nat));
            assert(removed@[index + 1] == merge_removed(original, index + 1));
        }
        index += 1;
    }
    proof {
        lemma_merge_state_shape(original, index as nat);
        if len > 0 {
            assert(merge_state(original, len as nat) == merge_state(original, index as nat));
        } else {
            assert(merge_state(original, 0) == original);
        }
    }
    let ghost t = nodes@;
    let mut out: Vec<IRNode> = Vec::new();
    let mut rest = nodes;
    let mut k: usize = 0;
    while rest.len() > 0
        invariant
            len == original.len(),
            t == merge_state(original, len as nat),
            t.len() == len,
            k + rest@.len() == len,
            rest@ == t.subrange(k as int, len as int),
            removed@.len() == len,
            forall|i: int| 0 <= i < len ==> #[trigger] removed@[i] == merge_removed(original, i),
            out@ == kept_nodes(t, original, k as int),
        decreases rest.len(),
    {
        let node = rest.remove(0);
        proof {
            assert(node == t[k as int]);
        }
        if !removed[k] {
            out.push(node);
        }
        k += 1;
        proof {
            assert(rest@ =~= t.subrange(k as int, len as int));
        }
    }
    proof {
        lemma_merge_state_shape(original, len as nat);
        lemma_kept_from(t, original, len as int);
        assert forall|n: int, tt: usize| 0 <= n < out@.len() && #[trigger] is_target(out@[n].kind, tt) implies exists|m: int|
            0 <= m < original.len() && #[trigger] is_target(original[m].kind, tt) by {
            let j = choose|j: int| 0 <= j < len && #[trigger] kept_nodes(t, original, len as int)[n] == #[trigger] t[j];
            assert(t[j] == original[j] || !(t[j].kind is Branch));
        }
    }
    out
}

/// Every kept node is a node of `t`.
proof fn lemma_kept_from(t: Seq<IRNode>, s: Seq<IRNode>, k: int)
    requires
        0 <= k <= t.len(),
    ensures
        forall|n: int| 0 <= n < kept_nodes(t, s, k).len() ==> exists|j: int| 0 <= j < k && #[trigger] kept_nodes(t, s, k)[n] == #[trigger] t[j],
    decreases k,
{
    if k > 0 {
        lemma_kept_from(t, s, k - 1);
        let prev = kept_nodes(t, s, k - 1);
        assert forall|n: int| 0 <= n < kept_nodes(t, s, k).len() implies exists|j: int| 0 <= j < k && #[trigger] kept_nodes(t, s, k)[n] == #[trigger] t[j] by {
            if n < prev.len() {
                assert(kept_nodes(t, s, k)[n] == prev[n]);
                let j = choose|j: int| 0 <= j < k - 1 && #[trigger] kept_nodes(t, s, k - 1)[n] == #[trigger] t[j];
            } else {
                assert(kept_nodes(t, s, k)[n] == t[k - 1]);
            }
        }
    }
}

fn merge_body(body: Vec<IRBlock>) -> (r: Vec<IRBlock>)
    ensures
        r@.len() == body@.len(),
        forall|j: int| 0 <= j < body@.len() ==> (#[trigger] r@[j]).id == body@[j].id && r@[j].nodes@ == merged_nodes(body@[j].nodes@),
        body_wf(body@) ==> body_wf(r@),
{
    let ghost original = body@;
    let mut rest = body;
    let mut out: Vec<IRBlock> = Vec::new();
    while rest.len() > 0
        invariant
            original == body@,
            out@.len() + rest@.len() == original.len(),
            rest@ == original.subrange(out@.len() as int, original.len() as int),
            forall|j: int| 0 <= j < out@.len() ==> (#[trigger] out@[j]).id == original[j].id
                && out@[j].nodes@ == merged_nodes(original[j].nodes@)
                && targets_within(out@[j].nodes@, original[j].nodes@),
        decreases rest.len(),
    {
        let block = rest.remove(0);
        let ghost k: int = out@.len() as int;
        proof {
            assert(block == original[k]);
        }
        let ghost before = out@;
        let IRBlock { id, nodes } = block;
        out.push(IRBlock { id, nodes: merge_block(nodes) });
        proof {
            assert forall|j: int| 0 <= j < out@.len() implies (#[trigger] out@[j]).id == original[j].id
                && out@[j].nodes@ == merged_nodes(original[j].nodes@)
                && targets_within(out@[j].nodes@, original[j].nodes@) by {
                if j < k {
                    assert(out@[j] == before[j]);
                }
            }
            assert(rest@ =~= original.subrange(out@.len() as int, original.len() as int));
        }
    }
    proof {
        if body_wf(original) {
            assert forall|t: usize| #[trigger] referenced(out@, t) implies has_block(out@, t) by {
                let (b, m) = choose|b: int, m: int| 0 <= b < out@.len() && 0 <= m < out@[b].nodes@.len()
                    && #[trigger] is_target(out@[b].nodes@[m].kind, t);
                let m2 = choose|m2: int| 0 <= m2 < original[b].nodes@.len() && #[trigger] is_target(original[b].nodes@[m2].kind, t);
                assert(referenced(original, t));
                let i = choose|i: int| 0 <= i < original.len() && #[trigger] original[i].id == t;
                assert(out@[i].id == t);
            }
            assert forall|i: int, j: int| 0 <= i < out@.len() && 0 <= j < out@.len() && #[trigger] out@[i].id == #[trigger] out@[j].id implies i == j by {
                assert(original[i].id == original[j].id);
            }
        }
    }
    out
}

/// Copy elimination on every block of every function: each block's nodes
/// become [`merged_nodes`] of them; the outline of every function is kept
/// and a well-formed module stays well formed. Never fails.
pub fn remove_redundant_assignments(module: &mut IRModule) -> (r: Result<(), IROptimizerError>)
    ensures
        r is Ok,
        same_outline(final(module).functions@, old(module).functions@),
        forall|i: int, j: int| 0 <= i < old(module).functions@.len() && 0 <= j < old(module).functions@[i].body@.len()
            ==> (#[trigger] final(module).functions@[i].body@[j]).nodes@ == merged_nodes(old(module).functions@[i].body@[j].nodes@),
        old(module).wf() ==> final(module).wf(),
        final(module).global_variables == old(module).global_variables,
        final(module).strings == old(module).strings,
{
    let ghost original = module.functions@;
    let mut rest: Vec<IRFunction> = Vec::new();
    std::mem::swap(&mut rest, &mut module.functions);
    let mut out: Vec<IRFunction> = Vec::new();
    while rest.len() > 0
        invariant
            original == old(module).functions@,
            module.global_variables == old(module).global_variables,
            module.strings == old(module).strings,
            out@.len() + rest@.len() == original.len(),
            rest@ == original.subrange(out@.len() as int, original.len() as int),
            same_outline(out@, original.subrange(0, out@.len() as int)),
            forall|i: int, j: int| 0 <= i < out@.len() && 0 <= j < original[i].body@.len()
                ==> (#[trigger] out@[i].body@[j]).nodes@ == merged_nodes(original[i].body@[j].nodes@),
            forall|j: int| 0 <= j < out@.len() && body_wf(original[j].body@) ==> body_wf((#[trigger] out@[j]).body@),
        decreases rest.len(),
    {
        let function = rest.remove(0);
        let ghost k: int = out@.len() as int;
        proof {
            assert(function == original[k]);
        }
        let ghost before = out@;
        let IRFunction { name, parameters, parameter_regs, body } = function;
        let new_body = merge_body(body);
        out.push(IRFunction { name, parameters, parameter_regs, body: new_body });
        proof {
            let sub = original.subrange(0, k + 1);
            assert forall|i: int| 0 <= i < out@.len() implies {
                let f = #[trigger] out@[i];
                let g = sub[i];
                &&& f.name == g.name
                &&& f.parameters == g.parameters
                &&& f.parameter_regs == g.parameter_regs
                &&& f.body@.len() == g.body@.len()
                &&& forall|j: int| 0 <= j < f.body@.len() ==> (#[trigger] f.body@[j]).id == g.body@[j].id
            } by {
                if i < k {
                    assert(out@[i] == before[i]);
                    assert(sub[i] == original.subrange(0, k)[i]);
                }
            }
            assert forall|i: int, j: int| 0 <= i < out@.len() && 0 <= j < original[i].body@.len()
                implies (#[trigger] out@[i].body@[j]).nodes@ == merged_nodes(original[i].body@[j].nodes@) by {
                if i < k {
                    assert(out@[i] == before[i]);
                }
            }
            assert forall|j: int| 0 <= j < out@.len() && body_wf(original[j].body@) implies body_wf((#[trigger] out@[j]).body@) by {
                if j < k {
                    assert(out@[j] == before[j]);
                }
            }
            assert(rest@ =~= original.subrange(out@.len() as int, original.len() as int));
        }
    }
    proof {
        assert(original.subrange(0, out@.len() as int) =~= original);
    }
    module.functions = out;
    Ok(())
}

} // verus!
