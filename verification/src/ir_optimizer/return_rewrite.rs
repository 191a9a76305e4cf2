//! What rewriting a callee's returns at a call site keeps.
use vstd::prelude::*;
use crate::ir_generator::domain::{IRNode, IRNodeKind, IRValue, IRVariable};
use crate::ir_optimizer::inline::returns_rewritten;
use crate::virtual_register::VirtualRegister;

verus! {

/// The unconditional jump to block `t`.
pub open spec fn jump_to(t: usize) -> IRNode {
    IRNode { kind: IRNodeKind::Branch { condition: None, true_branch: Some(t), false_branch: None } }
}

/// `out` holds `x` at some position.
pub open spec fn holds_node(out: Seq<IRNode>, x: IRNode) -> bool {
    exists|j: int| 0 <= j < out.len() && out[j] == x
}

/// `out` holds the assignment of `v` to `res` immediately followed by the
/// jump to `t`.
pub open spec fn holds_assign_then_jump(out: Seq<IRNode>, res: VirtualRegister, v: IRValue, t: usize) -> bool {
    exists|j: int|
        0 <= j && j + 1 < out.len() && (#[trigger] out[j]) == (IRNode {
            kind: IRNodeKind::Assign { variable: IRVariable::Register(res), value: v },
        }) && out[j + 1] == jump_to(t)
}

/// After rewriting, no node returns: every return of the callee becomes a
/// jump to the block after the call, right after an assignment of the
/// returned value to the call's result register when the call has one and
/// the return carries a value; every other node is kept.
pub proof fn lemma_returns_rewritten(nodes: Seq<IRNode>, result: Option<VirtualRegister>, return_id: usize)
    ensures
        forall|j: int| 0 <= j < returns_rewritten(nodes, result, return_id).len() ==> !((#[trigger] returns_rewritten(
            nodes,
            result,
            return_id,
        )[j]).kind is Return),
        forall|i: int| 0 <= i < nodes.len() && !(nodes[i].kind is Return) ==> holds_node(returns_rewritten(nodes, result, return_id), #[trigger] nodes[i]),
        forall|i: int| 0 <= i < nodes.len() && nodes[i].kind is Return ==> holds_node(returns_rewritten(nodes, result, return_id), jump_to(return_id)) && (
        #[trigger] nodes[i].kind matches IRNodeKind::Return { value: Some(v) } ==> (result matches Some(res) ==> holds_assign_then_jump(
            returns_rewritten(nodes, result, return_id),
            res,
            v,
            return_id,
        ))),
    decreases nodes.len(),
{
    if nodes.len() > 0 {
        let prefix = nodes.drop_last();
        let prev = returns_rewritten(prefix, result, return_id);
        let out = returns_rewritten(nodes, result, return_id);
        lemma_returns_rewritten(prefix, result, return_id);
        assert forall|j: int| 0 <= j < prev.len() implies out[j] == prev[j] by {}
        assert forall|i: int| 0 <= i < nodes.len() && !(nodes[i].kind is Return) implies holds_node(out, #[trigger] nodes[i]) by {
            if i < nodes.len() - 1 {
                assert(prefix[i] == nodes[i]);
                let j = choose|j: int| 0 <= j < prev.len() && prev[j] == prefix[i];
                assert(out[j] == nodes[i]);
            } else {
                assert(out[out.len() - 1] == nodes[i]);
            }
        }
        assert forall|i: int| 0 <= i < nodes.len() && nodes[i].kind is Return implies holds_node(out, jump_to(return_id)) && (
        #[trigger] nodes[i].kind matches IRNodeKind::Return { value: Some(v) } ==> (result matches Some(res) ==> holds_assign_then_jump(
            out,
            res,
            v,
            return_id,
        ))) by {
            if i < nodes.len() - 1 {
                assert(prefix[i] == nodes[i]);
                let j = choose|j: int| 0 <= j < prev.len() && prev[j] == jump_to(return_id);
                assert(out[j] == jump_to(return_id));
                if let IRNodeKind::Return { value: Some(v) } = nodes[i].kind {
                    if let Some(res) = result {
                        let k = choose|k: int|
                            0 <= k && k + 1 < prev.len() && (#[trigger] prev[k]) == (IRNode {
                                kind: IRNodeKind::Assign { variable: IRVariable::Register(res), value: v },
                            }) && prev[k + 1] == jump_to(return_id);
                        assert(out[k] == prev[k] && out[k + 1] == prev[k + 1]);
                    }
                }
            } else {
                assert(out[out.len() - 1] == jump_to(return_id));
                if let IRNodeKind::Return { value: Some(v) } = nodes[i].kind {
                    if let Some(res) = result {
                        assert(out[out.len() - 2] == (IRNode {
                            kind: IRNodeKind::Assign { variable: IRVariable::Register(res), value: v },
                        }));
                    }
                }
            }
        }
    }
}

} // verus!
