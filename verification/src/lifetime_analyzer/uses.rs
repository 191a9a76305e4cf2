//! Every register a node reads is recorded as read at the node's address
//! and is live just before it.
use vstd::prelude::*;
use crate::ir_generator::domain::{IRNodeKind, IRValue};
use crate::lifetime_analyzer::domain::{FunctionLifetime, IRAddress};
use crate::lifetime_analyzer::element::{
    ElementView, arg_regs_view, assign_view, blocks_view, elements_view, function_elements, index_of_reg, node_view,
    nodes_view, ref_view, refs_view, then_assign, then_ref,
};
use crate::lifetime_analyzer::function::{is_point, lifetime_of, uses_at};
use crate::virtual_register::VirtualRegister;
use crate::ir_generator::domain::IRFunction;

verus! {

/// The value is read from register `r`.
pub open spec fn value_reads(v: IRValue, r: VirtualRegister) -> bool {
    v.spec_register() == Some(r)
}

/// The node reads register `r` when it runs: the value an assignment
/// copies; the pointer and the value of a store; the base and index of an
/// address computation; the operands of an operation; the argument
/// registers and a called register of a call; a branch condition; a
/// returned value.
pub open spec fn reads_register(k: IRNodeKind, r: VirtualRegister) -> bool {
    match k {
        IRNodeKind::Assign { value, .. } => value_reads(value, r),
        IRNodeKind::AddressAssignment { address, value } => value_reads(address, r) || value_reads(value, r),
        IRNodeKind::Lea { base, index, .. } => value_reads(base, r) || index == r,
        IRNodeKind::BinaryOp { left, right, .. } => value_reads(left, r) || value_reads(right, r),
        IRNodeKind::UnaryOp { operand, .. } => value_reads(operand, r),
        IRNodeKind::FunctionCall { name, argument_regs, .. } => name.spec_register() == Some(r) || argument_regs@.contains(r),
        IRNodeKind::Branch { condition: Some(c), .. } => value_reads(c, r),
        IRNodeKind::Return { value: Some(v) } => value_reads(v, r),
        _ => false,
    }
}

/// Some element of `r` is read at `a`.
pub open spec fn read_at(es: Seq<ElementView>, r: VirtualRegister, a: IRAddress) -> bool {
    exists|i: int| 0 <= i < es.len() && (#[trigger] es[i]).0 == r && es[i].1.contains(a)
}

/// Some element of `r` is assigned at `a`.
pub open spec fn assigned_at(es: Seq<ElementView>, r: VirtualRegister, a: IRAddress) -> bool {
    exists|i: int| 0 <= i < es.len() && (#[trigger] es[i]).0 == r && es[i].2.contains(a)
}

/// The node writes register `r` when it runs: the variable an assignment
/// writes, or the result of an address computation, an operation or a call.
pub open spec fn writes_register(k: IRNodeKind, r: VirtualRegister) -> bool {
    match k {
        IRNodeKind::Assign { variable, .. } => variable.spec_register() == Some(r),
        IRNodeKind::Lea { result, .. } => result == r,
        IRNodeKind::BinaryOp { result, .. } => result == r,
        IRNodeKind::UnaryOp { result, .. } => result == r,
        IRNodeKind::FunctionCall { result: Some(x), .. } => x == r,
        _ => false,
    }
}

proof fn lemma_index_of_reg(es: Seq<ElementView>, r: VirtualRegister)
    ensures
        index_of_reg(es, r) < es.len(),
        index_of_reg(es, r) >= 0 ==> es[index_of_reg(es, r)].0 == r,
    decreases es.len(),
{
    if es.len() > 0 {
        lemma_index_of_reg(es.drop_last(), r);
    }
}

proof fn lemma_ref_view(es: Seq<ElementView>, v: IRValue, a: IRAddress, r: VirtualRegister, a2: IRAddress)
    requires
        ref_view(es, v, a) is Some,
    ensures
        read_at(es, r, a2) ==> read_at(ref_view(es, v, a)->0, r, a2),
        value_reads(v, r) ==> read_at(ref_view(es, v, a)->0, r, a),
        assigned_at(es, r, a2) ==> assigned_at(ref_view(es, v, a)->0, r, a2),
{
    let s = ref_view(es, v, a)->0;
    if let Some(x) = v.spec_register() {
        let es1 = if v is StringLiteral && index_of_reg(es, x) < 0 {
            es.push((x, seq![a], seq![crate::lifetime_analyzer::element::prev_address(a)]))
        } else {
            es
        };
        lemma_index_of_reg(es1, x);
        let j = index_of_reg(es1, x);
        assert(s == es1.update(j, (x, es1[j].1.push(a), es1[j].2)));
        if read_at(es, r, a2) {
            let i = choose|i: int| 0 <= i < es.len() && (#[trigger] es[i]).0 == r && es[i].1.contains(a2);
            assert(es1[i] == es[i]);
            if i == j {
                assert(s[i].1 == es[i].1.push(a));
                assert(s[i].1[es[i].1.index_of(a2)] == a2);
            } else {
                assert(s[i] == es[i]);
            }
        }
        if value_reads(v, r) {
            assert(s[j].1[es1[j].1.len() as int] == a);
        }
        if assigned_at(es, r, a2) {
            let i = choose|i: int| 0 <= i < es.len() && (#[trigger] es[i]).0 == r && es[i].2.contains(a2);
            assert(es1[i] == es[i]);
            if i == j {
                assert(s[i].2 == es[i].2);
            } else {
                assert(s[i] == es[i]);
            }
        }
    }
}

proof fn lemma_assign_view(es: Seq<ElementView>, x: VirtualRegister, a: IRAddress, r: VirtualRegister, a2: IRAddress)
    ensures
        read_at(es, r, a2) ==> read_at(assign_view(es, x, a), r, a2),
        assigned_at(es, r, a2) ==> assigned_at(assign_view(es, x, a), r, a2),
        assigned_at(assign_view(es, x, a), x, a),
{
    lemma_index_of_reg(es, x);
    let s = assign_view(es, x, a);
    let j = index_of_reg(es, x);
    if assigned_at(es, r, a2) {
        let i = choose|i: int| 0 <= i < es.len() && (#[trigger] es[i]).0 == r && es[i].2.contains(a2);
        if j >= 0 && i == j {
            assert(s[i].2 == es[i].2.push(a));
            assert(s[i].2[es[i].2.index_of(a2)] == a2);
        } else {
            assert(s[i] == es[i]);
        }
    }
    if j >= 0 {
        assert(s[j].2[es[j].2.len() as int] == a);
    } else {
        assert(s[es.len() as int].2[0] == a);
    }
    if read_at(es, r, a2) {
        let i = choose|i: int| 0 <= i < es.len() && (#[trigger] es[i]).0 == r && es[i].1.contains(a2);
        let s = assign_view(es, x, a);
        let j = index_of_reg(es, x);
        if j >= 0 && i == j {
            assert(s[i].1 == es[i].1);
        } else {
            assert(s[i] == es[i]);
        }
    }
}

proof fn lemma_then_ref(es: Option<Seq<ElementView>>, v: IRValue, a: IRAddress, r: VirtualRegister, a2: IRAddress)
    requires
        then_ref(es, v, a) is Some,
    ensures
        es is Some,
        read_at(es->0, r, a2) ==> read_at(then_ref(es, v, a)->0, r, a2),
        value_reads(v, r) ==> read_at(then_ref(es, v, a)->0, r, a),
        assigned_at(es->0, r, a2) ==> assigned_at(then_ref(es, v, a)->0, r, a2),
{
    lemma_ref_view(es->0, v, a, r, a2);
}

proof fn lemma_then_assign(es: Option<Seq<ElementView>>, x: VirtualRegister, a: IRAddress, r: VirtualRegister, a2: IRAddress)
    requires
        then_assign(es, x, a) is Some,
    ensures
        es is Some,
        read_at(es->0, r, a2) ==> read_at(then_assign(es, x, a)->0, r, a2),
        assigned_at(es->0, r, a2) ==> assigned_at(then_assign(es, x, a)->0, r, a2),
        assigned_at(then_assign(es, x, a)->0, x, a),
{
    lemma_assign_view(es->0, x, a, r, a2);
}

proof fn lemma_refs_view(es: Option<Seq<ElementView>>, vs: Seq<IRValue>, a: IRAddress, r: VirtualRegister, a2: IRAddress)
    requires
        refs_view(es, vs, a) is Some,
    ensures
        es is Some,
        read_at(es->0, r, a2) ==> read_at(refs_view(es, vs, a)->0, r, a2),
        assigned_at(es->0, r, a2) ==> assigned_at(refs_view(es, vs, a)->0, r, a2),
    decreases vs.len(),
{
    if vs.len() > 0 {
        lemma_then_ref(refs_view(es, vs.drop_last(), a), vs.last(), a, r, a2);
        lemma_refs_view(es, vs.drop_last(), a, r, a2);
    }
}

proof fn lemma_arg_regs_view(es: Option<Seq<ElementView>>, rs: Seq<VirtualRegister>, a: IRAddress, r: VirtualRegister, a2: IRAddress)
    requires
        arg_regs_view(es, rs, a) is Some,
    ensures
        es is Some,
        read_at(es->0, r, a2) ==> read_at(arg_regs_view(es, rs, a)->0, r, a2),
        rs.contains(r) ==> read_at(arg_regs_view(es, rs, a)->0, r, a),
        assigned_at(es->0, r, a2) ==> assigned_at(arg_regs_view(es, rs, a)->0, r, a2),
    decreases rs.len(),
{
    if rs.len() > 0 {
        let prior = arg_regs_view(es, rs.drop_last(), a);
        let p = crate::lifetime_analyzer::element::prev_address(a);
        let mid = then_assign(prior, rs.last(), p);
        lemma_then_ref(mid, IRValue::Register(rs.last()), a, r, a2);
        lemma_then_assign(prior, rs.last(), p, r, a2);
        lemma_arg_regs_view(es, rs.drop_last(), a, r, a2);
        if rs.contains(r) && r != rs.last() {
            let i = choose|i: int| 0 <= i < rs.len() && rs[i] == r;
            assert(rs.drop_last()[i] == r);
            lemma_arg_regs_view(es, rs.drop_last(), a, r, a);
            lemma_then_ref(mid, IRValue::Register(rs.last()), a, r, a);
            lemma_then_assign(prior, rs.last(), p, r, a);
        }
        if rs.contains(r) && r == rs.last() {
            assert(value_reads(IRValue::Register(rs.last()), r));
        }
    }
}

/// A node keeps every read recorded before it and records a read, at its
/// own address, of every register it reads.
proof fn lemma_node_view(es: Seq<ElementView>, k: IRNodeKind, a: IRAddress, r: VirtualRegister, a2: IRAddress)
    requires
        node_view(es, k, a) is Some,
    ensures
        read_at(es, r, a2) ==> read_at(node_view(es, k, a)->0, r, a2),
        reads_register(k, r) ==> read_at(node_view(es, k, a)->0, r, a),
        assigned_at(es, r, a2) ==> assigned_at(node_view(es, k, a)->0, r, a2),
        writes_register(k, r) ==> assigned_at(node_view(es, k, a)->0, r, a),
{
    match k {
        IRNodeKind::Assign { variable, value } => {
            let s0 = crate::lifetime_analyzer::element::assign_variable_view(es, variable, a);
            lemma_ref_view(s0, value, a, r, a2);
            lemma_ref_view(s0, value, a, r, a);
            match variable.spec_register() {
                Some(x) => {
                    lemma_assign_view(es, x, a, r, a2);
                    lemma_assign_view(es, x, a, r, a);
                },
                None => {},
            }
        },
        IRNodeKind::AddressAssignment { address, value } => {
            lemma_then_ref(ref_view(es, address, a), value, a, r, a2);
            lemma_ref_view(es, address, a, r, a2);
            lemma_then_ref(ref_view(es, address, a), value, a, r, a);
            lemma_ref_view(es, address, a, r, a);
        },
        IRNodeKind::Lea { base, index, result, .. } => {
            let s1 = then_ref(ref_view(es, base, a), IRValue::Register(index), a);
            lemma_then_assign(s1, result, a, r, a2);
            lemma_then_assign(s1, result, a, r, a);
            lemma_then_ref(ref_view(es, base, a), IRValue::Register(index), a, r, a2);
            lemma_then_ref(ref_view(es, base, a), IRValue::Register(index), a, r, a);
            lemma_ref_view(es, base, a, r, a2);
            lemma_ref_view(es, base, a, r, a);
        },
        IRNodeKind::BinaryOp { left, right, result, .. } => {
            let s1 = then_ref(ref_view(es, left, a), right, a);
            lemma_then_assign(s1, result, a, r, a2);
            lemma_then_assign(s1, result, a, r, a);
            lemma_then_ref(ref_view(es, left, a), right, a, r, a2);
            lemma_then_ref(ref_view(es, left, a), right, a, r, a);
            lemma_ref_view(es, left, a, r, a2);
            lemma_ref_view(es, left, a, r, a);
        },
        IRNodeKind::UnaryOp { operand, result, .. } => {
            lemma_then_assign(ref_view(es, operand, a), result, a, r, a2);
            lemma_then_assign(ref_view(es, operand, a), result, a, r, a);
            lemma_ref_view(es, operand, a, r, a2);
            lemma_ref_view(es, operand, a, r, a);
        },
        IRNodeKind::FunctionCall { name, arguments, argument_regs, result } => {
            let p = crate::lifetime_analyzer::element::prev_address(a);
            let s0 = refs_view(Some(es), arguments@, p);
            let s1 = arg_regs_view(s0, argument_regs@, a);
            let s2 = match name.spec_register() {
                Some(x) => then_ref(s1, IRValue::Register(x), a),
                None => s1,
            };
            match result {
                Some(x) => {
                    lemma_then_assign(s2, x, a, r, a2);
                    lemma_then_assign(s2, x, a, r, a);
                },
                None => {},
            }
            match name.spec_register() {
                Some(x) => {
                    lemma_then_ref(s1, IRValue::Register(x), a, r, a2);
                    lemma_then_ref(s1, IRValue::Register(x), a, r, a);
                },
                None => {},
            }
            lemma_arg_regs_view(s0, argument_regs@, a, r, a2);
            lemma_arg_regs_view(s0, argument_regs@, a, r, a);
            lemma_refs_view(Some(es), arguments@, p, r, a2);
        },
        IRNodeKind::Branch { condition: Some(c), .. } => {
            lemma_ref_view(es, c, a, r, a2);
        },
        IRNodeKind::Return { value: Some(v) } => {
            lemma_ref_view(es, v, a, r, a2);
        },
        _ => {},
    }
}

proof fn lemma_nodes_view(es: Option<Seq<ElementView>>, nodes: Seq<crate::ir_generator::domain::IRNode>, id: usize, r: VirtualRegister, a2: IRAddress, n: int)
    requires
        nodes_view(es, nodes, id) is Some,
    ensures
        es is Some,
        read_at(es->0, r, a2) ==> read_at(nodes_view(es, nodes, id)->0, r, a2),
        0 <= n < nodes.len() && reads_register(nodes[n].kind, r) ==> read_at(
            nodes_view(es, nodes, id)->0,
            r,
            IRAddress { id, offset: n as usize },
        ),
        assigned_at(es->0, r, a2) ==> assigned_at(nodes_view(es, nodes, id)->0, r, a2),
        0 <= n < nodes.len() && writes_register(nodes[n].kind, r) ==> assigned_at(
            nodes_view(es, nodes, id)->0,
            r,
            IRAddress { id, offset: n as usize },
        ),
    decreases nodes.len(),
{
    if nodes.len() > 0 {
        let prev = nodes_view(es, nodes.drop_last(), id);
        let a = IRAddress { id, offset: (nodes.len() - 1) as usize };
        lemma_node_view(prev->0, nodes.last().kind, a, r, a2);
        lemma_nodes_view(es, nodes.drop_last(), id, r, a2, n);
        if 0 <= n < nodes.len() - 1 {
            let an = IRAddress { id, offset: n as usize };
            lemma_nodes_view(es, nodes.drop_last(), id, r, an, n);
            lemma_node_view(prev->0, nodes.last().kind, a, r, an);
            assert(nodes.drop_last()[n] == nodes[n]);
        }
        if n == nodes.len() - 1 {
            lemma_node_view(prev->0, nodes.last().kind, a, r, a);
        }
    }
}

proof fn lemma_blocks_view(
    es: Option<Seq<ElementView>>,
    blocks: Seq<crate::ir_generator::domain::IRBlock>,
    r: VirtualRegister,
    a2: IRAddress,
    b: int,
    n: int,
)
    requires
        blocks_view(es, blocks) is Some,
    ensures
        es is Some,
        read_at(es->0, r, a2) ==> read_at(blocks_view(es, blocks)->0, r, a2),
        0 <= b < blocks.len() && 0 <= n < blocks[b].nodes@.len() && reads_register(blocks[b].nodes@[n].kind, r) ==> read_at(
            blocks_view(es, blocks)->0,
            r,
            IRAddress { id: blocks[b].id, offset: n as usize },
        ),
        assigned_at(es->0, r, a2) ==> assigned_at(blocks_view(es, blocks)->0, r, a2),
        0 <= b < blocks.len() && 0 <= n < blocks[b].nodes@.len() && writes_register(blocks[b].nodes@[n].kind, r) ==> assigned_at(
            blocks_view(es, blocks)->0,
            r,
            IRAddress { id: blocks[b].id, offset: n as usize },
        ),
    decreases blocks.len(),
{
    if blocks.len() > 0 {
        let prev = blocks_view(es, blocks.drop_last());
        let last = blocks.last();
        lemma_nodes_view(prev, last.nodes@, last.id, r, a2, n);
        lemma_blocks_view(es, blocks.drop_last(), r, a2, b, n);
        if 0 <= b < blocks.len() - 1 && 0 <= n < blocks[b].nodes@.len() {
            let an = IRAddress { id: blocks[b].id, offset: n as usize };
            assert(blocks.drop_last()[b] == blocks[b]);
            lemma_blocks_view(es, blocks.drop_last(), r, an, b, n);
            lemma_nodes_view(prev, last.nodes@, last.id, r, an, n);
        }
    }
}

/// Every register a node of `f` reads is recorded as read at that node's
/// address; in particular a store reads both its pointer and its value.
pub proof fn lemma_reads_recorded(f: IRFunction, b: int, n: int, r: VirtualRegister)
    requires
        function_elements(f) is Some,
        0 <= b < f.body@.len(),
        0 <= n < f.body@[b].nodes@.len(),
        reads_register(f.body@[b].nodes@[n].kind, r),
    ensures
        read_at(function_elements(f)->0, r, IRAddress { id: f.body@[b].id, offset: n as usize }),
{
    lemma_blocks_view(Some(crate::lifetime_analyzer::element::parameter_elements(f)), f.body@, r, IRAddress { id: 0, offset: 0 }, b, n);
}

/// Every register a node of `f` writes (an assigned variable's register or
/// a result register) is recorded as assigned at that node's address.
pub proof fn lemma_writes_recorded(f: IRFunction, b: int, n: int, r: VirtualRegister)
    requires
        function_elements(f) is Some,
        0 <= b < f.body@.len(),
        0 <= n < f.body@[b].nodes@.len(),
        writes_register(f.body@[b].nodes@[n].kind, r),
    ensures
        assigned_at(function_elements(f)->0, r, IRAddress { id: f.body@[b].id, offset: n as usize }),
{
    lemma_blocks_view(Some(crate::lifetime_analyzer::element::parameter_elements(f)), f.body@, r, IRAddress { id: 0, offset: 0 }, b, n);
}

/// Every register a node of `f` reads is live just before the node: the
/// node's address is a point of the analysis of `f`, and its live-in set
/// holds the register.
pub proof fn lemma_reads_live(f: IRFunction, l: FunctionLifetime, b: int, n: int, r: VirtualRegister)
    requires
        lifetime_of(f, l),
        0 <= b < f.body@.len(),
        0 <= n < f.body@[b].nodes@.len(),
        reads_register(f.body@[b].nodes@[n].kind, r),
    ensures
        exists|k: int| 0 <= k < l.live_in@.len() && (#[trigger] l.live_in@[k]).0 == (IRAddress { id: f.body@[b].id, offset: n as usize })
            && l.live_in@[k].1@.contains(r),
{
    let a = IRAddress { id: f.body@[b].id, offset: n as usize };
    lemma_reads_recorded(f, b, n, r);
    let es = function_elements(f)->0;
    let i = choose|i: int| 0 <= i < es.len() && (#[trigger] es[i]).0 == r && es[i].1.contains(a);
    assert(elements_view(l.elements@) == es);
    assert(es[i] == (l.elements@[i].reg, l.elements@[i].references@, l.elements@[i].assigns@));
    assert(uses_at(l.elements@, a).contains(r));
    assert(0 <= i < l.elements@.len());
    assert(l.elements@[i].references@.contains(a));
    assert(exists|j: int| #![trigger l.elements@[j]] 0 <= j < l.elements@.len() && (l.elements@[j].assigns@.contains(a) || l.elements@[j].references@.contains(a)));
    assert(is_point(l.elements@, a));
    let (points, edges) = choose|points: Seq<IRAddress>, edges: Seq<(usize, usize)>| {
        &&& crate::lifetime_analyzer::function::sorted_points(points)
        &&& (forall|x: IRAddress| #[trigger] points.contains(x) <==> is_point(l.elements@, x))
        &&& (crate::ir_generator::domain::ids_unique(f.body@) ==> forall|x: usize, y: usize| #[trigger] edges.contains((x, y)) <==> crate::control_flow::graph::flow_edge(f.body@, x, y))
        &&& crate::lifetime_analyzer::function::live_sets_solve(l.elements@, edges, points, l.live_in@, l.live_out@)
        &&& crate::lifetime_analyzer::function::least_live_sets(l.elements@, edges, points, l.live_in@, l.live_out@)
    };
    assert(points.contains(a));
    let k = choose|k: int| 0 <= k < points.len() && points[k] == a;
    assert(l.live_in@[k].0 == points[k]);
    assert(l.live_in@[k].1@.contains(r));
}

} // verus!
