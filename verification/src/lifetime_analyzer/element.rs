//! Collects, for every register of a function, the addresses where it is
//! assigned and where it is read.
use vstd::prelude::*;
use crate::ir_generator::domain::{IRBlock, IRFunction, IRNode, IRNodeKind, IRValue, IRVariable};
use crate::lifetime_analyzer::domain::{IRAddress, LifetimeElement};
use crate::lifetime_analyzer::error::LifetimeAnalyzerError;
use crate::text::{decimal, push_str};
use crate::virtual_register::VirtualRegister;

verus! {

/// An element as plain values: register, reads, assignments.
pub type ElementView = (VirtualRegister, Seq<IRAddress>, Seq<IRAddress>);

/// The register a value is read from (a placeholder for values that read none).
pub open spec fn value_register(v: IRValue) -> VirtualRegister {
    match v.spec_register() {
        Some(r) => r,
        None => VirtualRegister { id: 0, stored: false },
    }
}

/// The message for a register read before anything assigns it.
pub open spec fn missing_message(r: VirtualRegister) -> Seq<char> {
    "Register "@ + (seq!['%'] + decimal(r.id as nat)) + " not found in lifetime elements"@
}

/// The first argument whose read fails.
pub open spec fn refs_missing(es: Option<Seq<ElementView>>, vs: Seq<IRValue>, a: IRAddress) -> VirtualRegister
    decreases vs.len(),
{
    if vs.len() == 0 {
        value_register(IRValue::Immediate(0))
    } else if refs_view(es, vs.drop_last(), a) is None {
        refs_missing(es, vs.drop_last(), a)
    } else {
        value_register(vs.last())
    }
}

/// The first argument register whose read fails.
pub open spec fn arg_regs_missing(es: Option<Seq<ElementView>>, rs: Seq<VirtualRegister>, a: IRAddress) -> VirtualRegister
    decreases rs.len(),
{
    if rs.len() == 0 {
        value_register(IRValue::Immediate(0))
    } else if arg_regs_view(es, rs.drop_last(), a) is None {
        arg_regs_missing(es, rs.drop_last(), a)
    } else {
        rs.last()
    }
}

/// The first register whose read fails in a node, in the order the node
/// is analysed.
pub open spec fn node_missing(es: Seq<ElementView>, k: IRNodeKind, a: IRAddress) -> VirtualRegister {
    match k {
        IRNodeKind::Assign { value, .. } => value_register(value),
        IRNodeKind::AddressAssignment { address, value } => if ref_view(es, address, a) is None {
            value_register(address)
        } else {
            value_register(value)
        },
        IRNodeKind::Lea { base, index, .. } => if ref_view(es, base, a) is None {
            value_register(base)
        } else {
            index
        },
        IRNodeKind::BinaryOp { left, right, .. } => if ref_view(es, left, a) is None {
            value_register(left)
        } else {
            value_register(right)
        },
        IRNodeKind::UnaryOp { operand, .. } => value_register(operand),
        IRNodeKind::FunctionCall { name, arguments, argument_regs, .. } => {
            let s0 = refs_view(Some(es), arguments@, prev_address(a));
            if s0 is None {
                refs_missing(Some(es), arguments@, prev_address(a))
            } else if arg_regs_view(s0, argument_regs@, a) is None {
                arg_regs_missing(s0, argument_regs@, a)
            } else {
                match name.spec_register() {
                    Some(r) => r,
                    None => value_register(IRValue::Immediate(0)),
                }
            }
        },
        IRNodeKind::Branch { condition: Some(c), .. } => value_register(c),
        IRNodeKind::Return { value: Some(v) } => value_register(v),
        _ => value_register(IRValue::Immediate(0)),
    }
}

/// The first register whose read fails in a block's nodes.
pub open spec fn nodes_missing(es: Option<Seq<ElementView>>, nodes: Seq<IRNode>, id: usize) -> VirtualRegister
    decreases nodes.len(),
{
    if nodes.len() == 0 {
        value_register(IRValue::Immediate(0))
    } else {
        match nodes_view(es, nodes.drop_last(), id) {
            None => nodes_missing(es, nodes.drop_last(), id),
            Some(s) => node_missing(s, nodes.last().kind, IRAddress { id, offset: (nodes.len() - 1) as usize }),
        }
    }
}

/// The first register whose read fails in a body, block by block.
pub open spec fn blocks_missing(es: Option<Seq<ElementView>>, blocks: Seq<IRBlock>) -> VirtualRegister
    decreases blocks.len(),
{
    if blocks.len() == 0 {
        value_register(IRValue::Immediate(0))
    } else if blocks_view(es, blocks.drop_last()) is None {
        blocks_missing(es, blocks.drop_last())
    } else {
        nodes_missing(blocks_view(es, blocks.drop_last()), blocks.last().nodes@, blocks.last().id)
    }
}

/// The first register of a function, in body order, that is read before
/// anything assigns it.
pub open spec fn function_missing(f: IRFunction) -> VirtualRegister {
    blocks_missing(Some(parameter_elements(f)), f.body@)
}

pub open spec fn element_view(e: LifetimeElement) -> ElementView {
    (e.reg, e.references@, e.assigns@)
}

pub open spec fn elements_view(s: Seq<LifetimeElement>) -> Seq<ElementView> {
    s.map_values(|e: LifetimeElement| element_view(e))
}

/// The position of the first element of `r`, or -1.
pub open spec fn index_of_reg(es: Seq<ElementView>, r: VirtualRegister) -> int
    decreases es.len(),
{
    if es.len() == 0 {
        -1
    } else {
        let i = index_of_reg(es.drop_last(), r);
        if i >= 0 {
            i
        } else if es.last().0 == r {
            es.len() - 1
        } else {
            -1
        }
    }
}

pub open spec fn prev_address(a: IRAddress) -> IRAddress {
    IRAddress { id: a.id, offset: if a.offset == 0 { 0 } else { (a.offset - 1) as usize } }
}

/// Records an assignment of `r` at `a`.
pub open spec fn assign_view(es: Seq<ElementView>, r: VirtualRegister, a: IRAddress) -> Seq<ElementView> {
    let i = index_of_reg(es, r);
    if i >= 0 {
        es.update(i, (r, es[i].1, es[i].2.push(a)))
    } else {
        es.push((r, Seq::empty(), seq![a]))
    }
}

/// Records an assignment to a variable (nothing for a global).
pub open spec fn assign_variable_view(es: Seq<ElementView>, v: IRVariable, a: IRAddress) -> Seq<ElementView> {
    match v.spec_register() {
        Some(r) => assign_view(es, r, a),
        None => es,
    }
}

/// Records a read of a value's register at `a`; a string literal's register
/// is first assigned just before its first read. `None` when a register is
/// read that nothing assigned before.
pub open spec fn ref_view(es: Seq<ElementView>, v: IRValue, a: IRAddress) -> Option<Seq<ElementView>> {
    match v.spec_register() {
        None => Some(es),
        Some(r) => {
            let es1 = if v is StringLiteral && index_of_reg(es, r) < 0 {
                es.push((r, seq![a], seq![prev_address(a)]))
            } else {
                es
            };
            let i = index_of_reg(es1, r);
            if i >= 0 {
                Some(es1.update(i, (r, es1[i].1.push(a), es1[i].2)))
            } else {
                None
            }
        },
    }
}

pub open spec fn then_ref(es: Option<Seq<ElementView>>, v: IRValue, a: IRAddress) -> Option<Seq<ElementView>> {
    match es {
        Some(s) => ref_view(s, v, a),
        None => None,
    }
}

pub open spec fn then_assign(es: Option<Seq<ElementView>>, r: VirtualRegister, a: IRAddress) -> Option<Seq<ElementView>> {
    match es {
        Some(s) => Some(assign_view(s, r, a)),
        None => None,
    }
}

/// Reads of call arguments, in order.
pub open spec fn refs_view(es: Option<Seq<ElementView>>, vs: Seq<IRValue>, a: IRAddress) -> Option<Seq<ElementView>>
    decreases vs.len(),
{
    if vs.len() == 0 {
        es
    } else {
        then_ref(refs_view(es, vs.drop_last(), a), vs.last(), a)
    }
}

/// Argument registers: each assigned just before the call and read by it.
pub open spec fn arg_regs_view(es: Option<Seq<ElementView>>, rs: Seq<VirtualRegister>, a: IRAddress) -> Option<Seq<ElementView>>
    decreases rs.len(),
{
    if rs.len() == 0 {
        es
    } else {
        let prior = arg_regs_view(es, rs.drop_last(), a);
        then_ref(then_assign(prior, rs.last(), prev_address(a)), IRValue::Register(rs.last()), a)
    }
}

/// What one node records.
pub open spec fn node_view(es: Seq<ElementView>, k: IRNodeKind, a: IRAddress) -> Option<Seq<ElementView>> {
    match k {
        IRNodeKind::Assign { variable, value } => ref_view(assign_variable_view(es, variable, a), value, a),
        IRNodeKind::AddressAssignment { address, value } => then_ref(ref_view(es, address, a), value, a),
        IRNodeKind::Lea { base, index, result, .. } => then_assign(
            then_ref(ref_view(es, base, a), IRValue::Register(index), a),
            result,
            a,
        ),
        IRNodeKind::BinaryOp { left, right, result, .. } => then_assign(then_ref(ref_view(es, left, a), right, a), result, a),
        IRNodeKind::UnaryOp { operand, result, .. } => then_assign(ref_view(es, operand, a), result, a),
        IRNodeKind::FunctionCall { name, arguments, argument_regs, result } => {
            let s1 = arg_regs_view(refs_view(Some(es), arguments@, prev_address(a)), argument_regs@, a);
            let s2 = match name.spec_register() {
                Some(r) => then_ref(s1, IRValue::Register(r), a),
                None => s1,
            };
            match result {
                Some(r) => then_assign(s2, r, a),
                None => s2,
            }
        },
        IRNodeKind::Branch { condition: Some(c), .. } => ref_view(es, c, a),
        IRNodeKind::Return { value: Some(v) } => ref_view(es, v, a),
        _ => Some(es),
    }
}

/// The nodes of a block with id `id`, positions `0..n`.
pub open spec fn nodes_view(es: Option<Seq<ElementView>>, nodes: Seq<IRNode>, id: usize) -> Option<Seq<ElementView>>
    decreases nodes.len(),
{
    if nodes.len() == 0 {
        es
    } else {
        match nodes_view(es, nodes.drop_last(), id) {
            Some(s) => node_view(s, nodes.last().kind, IRAddress { id, offset: (nodes.len() - 1) as usize }),
            None => None,
        }
    }
}

pub open spec fn blocks_view(es: Option<Seq<ElementView>>, blocks: Seq<IRBlock>) -> Option<Seq<ElementView>>
    decreases blocks.len(),
{
    if blocks.len() == 0 {
        es
    } else {
        nodes_view(blocks_view(es, blocks.drop_last()), blocks.last().nodes@, blocks.last().id)
    }
}

/// The elements that start the analysis: each bound parameter register is
/// assigned at the first node of the entry block and read at the second;
/// each parameter is assigned at the second.
pub open spec fn parameter_elements(f: IRFunction) -> Seq<ElementView> {
    let entry = f.body@[0].id;
    Seq::new(f.parameter_regs@.len(), |i: int| (f.parameter_regs@[i], seq![IRAddress { id: entry, offset: 1 }], seq![IRAddress { id: entry, offset: 0 }]))
        + Seq::new(f.parameters@.len(), |i: int| (f.parameters@[i], Seq::<IRAddress>::empty(), seq![IRAddress { id: entry, offset: 1 }]))
}

/// The elements of a function, or `None` when some register is read that
/// nothing assigned before it in body order.
pub open spec fn function_elements(f: IRFunction) -> Option<Seq<ElementView>> {
    blocks_view(Some(parameter_elements(f)), f.body@)
}

fn first_index(elements: &Vec<LifetimeElement>, r: VirtualRegister) -> (i: Option<usize>)
    ensures
        i matches Some(k) ==> k < elements@.len() && index_of_reg(elements_view(elements@), r) == k,
        i is None ==> index_of_reg(elements_view(elements@), r) == -1,
{
    let ghost es = elements_view(elements@);
    let mut k: usize = 0;
    while k < elements.len()
        invariant
            es == elements_view(elements@),
            k <= elements@.len(),
            index_of_reg(es.subrange(0, k as int), r) == -1,
        decreases elements.len() - k,
    {
        proof {
            assert(es.subrange(0, k + 1).drop_last() =~= es.subrange(0, k as int));
        }
        if elements[k].reg == r {
            proof {
                lemma_index_prefix(es, r, k as int + 1);
            }
            return Some(k);
        }
        k += 1;
    }
    proof {
        assert(es.subrange(0, k as int) =~= es);
    }
    None
}

/// The index in a prefix that already holds the register is the index in
/// the whole list.
proof fn lemma_index_prefix(es: Seq<ElementView>, r: VirtualRegister, k: int)
    requires
        0 < k <= es.len(),
        index_of_reg(es.subrange(0, k), r) >= 0,
    ensures
        index_of_reg(es, r) == index_of_reg(es.subrange(0, k), r),
    decreases es.len() - k,
{
    if k < es.len() {
        assert(es.subrange(0, k + 1).drop_last() =~= es.subrange(0, k));
        lemma_index_prefix(es, r, k + 1);
    } else {
        assert(es.subrange(0, k) =~= es);
    }
}

/// The first index of a register holds that register.
pub proof fn lemma_index_of_reg(es: Seq<ElementView>, r: VirtualRegister)
    ensures
        -1 <= index_of_reg(es, r) < es.len(),
        index_of_reg(es, r) >= 0 ==> es[index_of_reg(es, r)].0 == r,
        index_of_reg(es, r) == -1 ==> forall|j: int| 0 <= j < es.len() ==> es[j].0 != r,
    decreases es.len(),
{
    if es.len() > 0 {
        lemma_index_of_reg(es.drop_last(), r);
        assert forall|j: int| 0 <= j < es.len() - 1 implies es[j] == es.drop_last()[j] by {}
    }
}

/// No two elements are of the same register.
pub open spec fn regs_distinct(es: Seq<ElementView>) -> bool {
    forall|i: int, j: int| 0 <= i < j < es.len() ==> #[trigger] es[i].0 != #[trigger] es[j].0
}

pub open spec fn opt_distinct(o: Option<Seq<ElementView>>) -> bool {
    match o {
        Some(s) => regs_distinct(s),
        None => true,
    }
}

proof fn lemma_assign_distinct(es: Seq<ElementView>, r: VirtualRegister, a: IRAddress)
    requires
        regs_distinct(es),
    ensures
        regs_distinct(assign_view(es, r, a)),
{
    lemma_index_of_reg(es, r);
    let n = assign_view(es, r, a);
    assert forall|i: int, j: int| 0 <= i < j < n.len() implies #[trigger] n[i].0 != #[trigger] n[j].0 by {
        if j == es.len() {
            assert(n[i] == es[i]);
        } else {
            assert(n[i].0 == es[i].0);
            assert(n[j].0 == es[j].0);
        }
    }
}

proof fn lemma_ref_distinct(es: Seq<ElementView>, v: IRValue, a: IRAddress)
    requires
        regs_distinct(es),
    ensures
        opt_distinct(ref_view(es, v, a)),
{
    match v.spec_register() {
        None => {},
        Some(r) => {
            lemma_index_of_reg(es, r);
            let es1 = if v is StringLiteral && index_of_reg(es, r) < 0 {
                es.push((r, seq![a], seq![prev_address(a)]))
            } else {
                es
            };
            assert forall|i: int, j: int| 0 <= i < j < es1.len() implies #[trigger] es1[i].0 != #[trigger] es1[j].0 by {
                if j == es.len() {
                    assert(es1[i] == es[i]);
                } else {
                    assert(es1[i] == es[i]);
                    assert(es1[j] == es[j]);
                }
            }
            lemma_index_of_reg(es1, r);
            let i0 = index_of_reg(es1, r);
            if i0 >= 0 {
                let n = es1.update(i0, (r, es1[i0].1.push(a), es1[i0].2));
                assert forall|i: int, j: int| 0 <= i < j < n.len() implies #[trigger] n[i].0 != #[trigger] n[j].0 by {
                    assert(n[i].0 == es1[i].0);
                    assert(n[j].0 == es1[j].0);
                }
            }
        },
    }
}

proof fn lemma_then_ref_distinct(o: Option<Seq<ElementView>>, v: IRValue, a: IRAddress)
    requires
        opt_distinct(o),
    ensures
        opt_distinct(then_ref(o, v, a)),
{
    if let Some(s) = o {
        lemma_ref_distinct(s, v, a);
    }
}

proof fn lemma_then_assign_distinct(o: Option<Seq<ElementView>>, r: VirtualRegister, a: IRAddress)
    requires
        opt_distinct(o),
    ensures
        opt_distinct(then_assign(o, r, a)),
{
    if let Some(s) = o {
        lemma_assign_distinct(s, r, a);
    }
}

proof fn lemma_refs_distinct(o: Option<Seq<ElementView>>, vs: Seq<IRValue>, a: IRAddress)
    requires
        opt_distinct(o),
    ensures
        opt_distinct(refs_view(o, vs, a)),
    decreases vs.len(),
{
    if vs.len() > 0 {
        lemma_refs_distinct(o, vs.drop_last(), a);
        lemma_then_ref_distinct(refs_view(o, vs.drop_last(), a), vs.last(), a);
    }
}

proof fn lemma_arg_regs_distinct(o: Option<Seq<ElementView>>, rs: Seq<VirtualRegister>, a: IRAddress)
    requires
        opt_distinct(o),
    ensures
        opt_distinct(arg_regs_view(o, rs, a)),
    decreases rs.len(),
{
    if rs.len() > 0 {
        lemma_arg_regs_distinct(o, rs.drop_last(), a);
        let prior = arg_regs_view(o, rs.drop_last(), a);
        lemma_then_assign_distinct(prior, rs.last(), prev_address(a));
        lemma_then_ref_distinct(then_assign(prior, rs.last(), prev_address(a)), IRValue::Register(rs.last()), a);
    }
}

proof fn lemma_node_distinct(es: Seq<ElementView>, k: IRNodeKind, a: IRAddress)
    requires
        regs_distinct(es),
    ensures
        opt_distinct(node_view(es, k, a)),
{
    match k {
        IRNodeKind::Assign { variable, value } => {
            if let Some(r) = variable.spec_register() {
                lemma_assign_distinct(es, r, a);
            }
            lemma_ref_distinct(assign_variable_view(es, variable, a), value, a);
        },
        IRNodeKind::AddressAssignment { address, value } => {
            lemma_ref_distinct(es, address, a);
            lemma_then_ref_distinct(ref_view(es, address, a), value, a);
        },
        IRNodeKind::Lea { base, index, result, .. } => {
            lemma_ref_distinct(es, base, a);
            lemma_then_ref_distinct(ref_view(es, base, a), IRValue::Register(index), a);
            lemma_then_assign_distinct(then_ref(ref_view(es, base, a), IRValue::Register(index), a), result, a);
        },
        IRNodeKind::BinaryOp { left, right, result, .. } => {
            lemma_ref_distinct(es, left, a);
            lemma_then_ref_distinct(ref_view(es, left, a), right, a);
            lemma_then_assign_distinct(then_ref(ref_view(es, left, a), right, a), result, a);
        },
        IRNodeKind::UnaryOp { operand, result, .. } => {
            lemma_ref_distinct(es, operand, a);
            lemma_then_assign_distinct(ref_view(es, operand, a), result, a);
        },
        IRNodeKind::FunctionCall { name, arguments, argument_regs, result } => {
            lemma_refs_distinct(Some(es), arguments@, prev_address(a));
            let s0 = refs_view(Some(es), arguments@, prev_address(a));
            lemma_arg_regs_distinct(s0, argument_regs@, a);
            let s1 = arg_regs_view(s0, argument_regs@, a);
            let s2 = match name.spec_register() {
                Some(r) => then_ref(s1, IRValue::Register(r), a),
                None => s1,
            };
            if let Some(r) = name.spec_register() {
                lemma_then_ref_distinct(s1, IRValue::Register(r), a);
            }
            if let Some(r) = result {
                lemma_then_assign_distinct(s2, r, a);
            }
        },
        IRNodeKind::Branch { condition: Some(c), .. } => {
            lemma_ref_distinct(es, c, a);
        },
        IRNodeKind::Return { value: Some(v) } => {
            lemma_ref_distinct(es, v, a);
        },
        _ => {},
    }
}

proof fn lemma_nodes_distinct(o: Option<Seq<ElementView>>, nodes: Seq<IRNode>, id: usize)
    requires
        opt_distinct(o),
    ensures
        opt_distinct(nodes_view(o, nodes, id)),
    decreases nodes.len(),
{
    if nodes.len() > 0 {
        lemma_nodes_distinct(o, nodes.drop_last(), id);
        if let Some(s) = nodes_view(o, nodes.drop_last(), id) {
            lemma_node_distinct(s, nodes.last().kind, IRAddress { id, offset: (nodes.len() - 1) as usize });
        }
    }
}

proof fn lemma_blocks_distinct(o: Option<Seq<ElementView>>, blocks: Seq<IRBlock>)
    requires
        opt_distinct(o),
    ensures
        opt_distinct(blocks_view(o, blocks)),
    decreases blocks.len(),
{
    if blocks.len() > 0 {
        lemma_blocks_distinct(o, blocks.drop_last());
        lemma_nodes_distinct(blocks_view(o, blocks.drop_last()), blocks.last().nodes@, blocks.last().id);
    }
}

/// The incoming and stored parameter registers are all different.
pub open spec fn parameter_registers_distinct(f: IRFunction) -> bool {
    let all = f.parameter_regs@ + f.parameters@;
    forall|i: int, j: int| 0 <= i < j < all.len() ==> #[trigger] all[i] != #[trigger] all[j]
}

/// With different parameter registers, the elements of a function are of
/// pairwise different registers.
pub proof fn lemma_function_elements_distinct(f: IRFunction)
    requires
        f.body@.len() > 0,
        parameter_registers_distinct(f),
    ensures
        opt_distinct(function_elements(f)),
{
    let p = parameter_elements(f);
    let all = f.parameter_regs@ + f.parameters@;
    let n = f.parameter_regs@.len() as int;
    assert forall|i: int, j: int| 0 <= i < j < p.len() implies #[trigger] p[i].0 != #[trigger] p[j].0 by {
        assert(p[i].0 == all[i]);
        assert(p[j].0 == all[j]);
    }
    lemma_blocks_distinct(Some(p), f.body@);
}

proof fn lemma_view_update(s: Seq<LifetimeElement>, i: int, e: LifetimeElement)
    requires
        0 <= i < s.len(),
    ensures
        elements_view(s.update(i, e)) == elements_view(s).update(i, element_view(e)),
{
    assert(elements_view(s.update(i, e)) =~= elements_view(s).update(i, element_view(e)));
}

proof fn lemma_view_push(s: Seq<LifetimeElement>, e: LifetimeElement)
    ensures
        elements_view(s.push(e)) == elements_view(s).push(element_view(e)),
{
    assert(elements_view(s.push(e)) =~= elements_view(s).push(element_view(e)));
}

/// Records an assignment of a register at an address.
fn assign_register(elements: &mut Vec<LifetimeElement>, r: VirtualRegister, address: IRAddress)
    ensures
        elements_view(final(elements)@) == assign_view(elements_view(old(elements)@), r, address),
{
    match first_index(elements, r) {
        Some(k) => {
            let mut e = elements.remove(k);
            e.assigns.push(address);
            elements.insert(k, e);
            proof {
                let es = elements_view(old(elements)@);
                assert(elements@ =~= old(elements)@.update(k as int, e));
                lemma_view_update(old(elements)@, k as int, e);
                lemma_index_of_reg(es, r);
                assert(es[k as int].0 == r);
            }
        },
        None => {
            let mut assigns: Vec<IRAddress> = Vec::new();
            assigns.push(address);
            let e = LifetimeElement { reg: r, references: Vec::new(), assigns };
            elements.push(e);
            proof {
                lemma_view_push(old(elements)@, e);
                assert(element_view(e) == (r, Seq::<IRAddress>::empty(), seq![address]));
            }
        },
    }
}

/// Records an assignment to a variable at an address (nothing for a global).
fn analyze_assign(elements: &mut Vec<LifetimeElement>, variable: &IRVariable, address: &IRAddress) -> (r: Result<(), LifetimeAnalyzerError>)
    ensures
        r is Ok,
        elements_view(final(elements)@) == assign_variable_view(elements_view(old(elements)@), *variable, *address),
{
    match variable.get_register() {
        Some(reg) => {
            assign_register(elements, reg, *address);
        },
        None => {},
    }
    Ok(())
}

/// Records a read of a value at an address. A string literal's register is
/// assigned just before its first read. Fails when a register is read that
/// has no element yet.
fn analyze_ref(elements: &mut Vec<LifetimeElement>, value: &IRValue, address: &IRAddress) -> (r: Result<(), LifetimeAnalyzerError>)
    ensures
        r is Ok <==> ref_view(elements_view(old(elements)@), *value, *address) is Some,
        r is Ok ==> Some(elements_view(final(elements)@)) == ref_view(elements_view(old(elements)@), *value, *address),
        r is Err ==> r->Err_0.message@ == missing_message(value_register(*value)),
{
    let reg = match value.get_register() {
        Some(reg) => reg,
        None => {
            return Ok(());
        },
    };
    let is_string = matches!(value, IRValue::StringLiteral { .. });
    if is_string && first_index(elements, reg).is_none() {
        let mut references: Vec<IRAddress> = Vec::new();
        references.push(*address);
        let mut assigns: Vec<IRAddress> = Vec::new();
        assigns.push(address.prev());
        let e = LifetimeElement { reg, references, assigns };
        let ghost before = elements@;
        elements.push(e);
        proof {
            lemma_view_push(before, e);
        }
    }
    let ghost mid = elements_view(elements@);
    match first_index(elements, reg) {
        Some(k) => {
            let ghost before = elements@;
            let mut e = elements.remove(k);
            e.references.push(*address);
            elements.insert(k, e);
            proof {
                assert(elements@ =~= before.update(k as int, e));
                lemma_view_update(before, k as int, e);
                lemma_index_of_reg(mid, reg);
                assert(mid[k as int].0 == reg);
                assert(element_view(e) == (reg, mid[k as int].1.push(*address), mid[k as int].2));
            }
            Ok(())
        },
        None => {
            let mut m = "Register ".to_string();
            let name = reg.to_text();
            push_str(&mut m, name.as_str());
            push_str(&mut m, " not found in lifetime elements");
            proof {
                assert(m@ == missing_message(reg));
            }
            Err(LifetimeAnalyzerError::new(m))
        },
    }
}

proof fn lemma_nodes_none(nodes: Seq<IRNode>, id: usize)
    ensures
        nodes_view(None, nodes, id) is None,
    decreases nodes.len(),
{
    if nodes.len() > 0 {
        lemma_nodes_none(nodes.drop_last(), id);
    }
}

proof fn lemma_blocks_none(blocks: Seq<IRBlock>)
    ensures
        blocks_view(None, blocks) is None,
    decreases blocks.len(),
{
    if blocks.len() > 0 {
        lemma_blocks_none(blocks.drop_last());
        lemma_nodes_none(blocks.last().nodes@, blocks.last().id);
    }
}

proof fn lemma_nodes_prefix_none(es: Option<Seq<ElementView>>, nodes: Seq<IRNode>, id: usize, k: int)
    requires
        0 <= k <= nodes.len(),
        nodes_view(es, nodes.subrange(0, k), id) is None,
    ensures
        nodes_view(es, nodes, id) is None,
        nodes_missing(es, nodes, id) == nodes_missing(es, nodes.subrange(0, k), id),
    decreases nodes.len() - k,
{
    if k < nodes.len() {
        assert(nodes.subrange(0, k + 1).drop_last() =~= nodes.subrange(0, k));
        lemma_nodes_prefix_none(es, nodes, id, k + 1);
    } else {
        assert(nodes.subrange(0, k) =~= nodes);
    }
}

proof fn lemma_blocks_prefix_none(es: Option<Seq<ElementView>>, blocks: Seq<IRBlock>, k: int)
    requires
        0 <= k <= blocks.len(),
        blocks_view(es, blocks.subrange(0, k)) is None,
    ensures
        blocks_view(es, blocks) is None,
        blocks_missing(es, blocks) == blocks_missing(es, blocks.subrange(0, k)),
    decreases blocks.len() - k,
{
    if k < blocks.len() {
        assert(blocks.subrange(0, k + 1).drop_last() =~= blocks.subrange(0, k));
        lemma_nodes_none(blocks[k].nodes@, blocks[k].id);
        lemma_blocks_prefix_none(es, blocks, k + 1);
    } else {
        assert(blocks.subrange(0, k) =~= blocks);
    }
}

/// Records the reads of call arguments at an address.
fn analyze_refs(elements: &mut Vec<LifetimeElement>, values: &Vec<IRValue>, address: &IRAddress) -> (r: Result<(), LifetimeAnalyzerError>)
    ensures
        r is Ok <==> refs_view(Some(elements_view(old(elements)@)), values@, *address) is Some,
        r is Ok ==> Some(elements_view(final(elements)@)) == refs_view(Some(elements_view(old(elements)@)), values@, *address),
        r is Err ==> r->Err_0.message@ == missing_message(refs_missing(Some(elements_view(old(elements)@)), values@, *address)),
{
    let ghost start = Some(elements_view(elements@));
    let mut i: usize = 0;
    while i < values.len()
        invariant
            start == Some(elements_view(old(elements)@)),
            i <= values@.len(),
            Some(elements_view(elements@)) == refs_view(start, values@.subrange(0, i as int), *address),
        decreases values.len() - i,
    {
        proof {
            assert(values@.subrange(0, i + 1).drop_last() =~= values@.subrange(0, i as int));
        }
        match analyze_ref(elements, &values[i], address) {
            Ok(()) => {},
            Err(e) => {
                proof {
                    lemma_refs_prefix_none(start, values@, *address, i as int + 1);
                }
                return Err(e);
            },
        }
        i += 1;
    }
    proof {
        assert(values@.subrange(0, i as int) =~= values@);
    }
    Ok(())
}

proof fn lemma_refs_none(vs: Seq<IRValue>, a: IRAddress)
    ensures
        refs_view(None, vs, a) is None,
    decreases vs.len(),
{
    if vs.len() > 0 {
        lemma_refs_none(vs.drop_last(), a);
    }
}

proof fn lemma_refs_prefix_none(es: Option<Seq<ElementView>>, vs: Seq<IRValue>, a: IRAddress, k: int)
    requires
        0 <= k <= vs.len(),
        refs_view(es, vs.subrange(0, k), a) is None,
    ensures
        refs_view(es, vs, a) is None,
        refs_missing(es, vs, a) == refs_missing(es, vs.subrange(0, k), a),
    decreases vs.len() - k,
{
    if k < vs.len() {
        assert(vs.subrange(0, k + 1).drop_last() =~= vs.subrange(0, k));
        lemma_refs_prefix_none(es, vs, a, k + 1);
    } else {
        assert(vs.subrange(0, k) =~= vs);
    }
}

proof fn lemma_arg_regs_none(rs: Seq<VirtualRegister>, a: IRAddress)
    ensures
        arg_regs_view(None, rs, a) is None,
    decreases rs.len(),
{
    if rs.len() > 0 {
        lemma_arg_regs_none(rs.drop_last(), a);
    }
}

proof fn lemma_arg_regs_prefix_none(es: Option<Seq<ElementView>>, rs: Seq<VirtualRegister>, a: IRAddress, k: int)
    requires
        0 <= k <= rs.len(),
        arg_regs_view(es, rs.subrange(0, k), a) is None,
    ensures
        arg_regs_view(es, rs, a) is None,
        arg_regs_missing(es, rs, a) == arg_regs_missing(es, rs.subrange(0, k), a),
    decreases rs.len() - k,
{
    if k < rs.len() {
        assert(rs.subrange(0, k + 1).drop_last() =~= rs.subrange(0, k));
        lemma_arg_regs_prefix_none(es, rs, a, k + 1);
    } else {
        assert(rs.subrange(0, k) =~= rs);
    }
}

/// Each argument register is assigned just before the call and read by it.
fn analyze_arg_regs(elements: &mut Vec<LifetimeElement>, regs: &Vec<VirtualRegister>, address: &IRAddress) -> (r: Result<(), LifetimeAnalyzerError>)
    ensures
        r is Ok <==> arg_regs_view(Some(elements_view(old(elements)@)), regs@, *address) is Some,
        r is Ok ==> Some(elements_view(final(elements)@)) == arg_regs_view(Some(elements_view(old(elements)@)), regs@, *address),
        r is Err ==> r->Err_0.message@ == missing_message(arg_regs_missing(Some(elements_view(old(elements)@)), regs@, *address)),
{
    let ghost start = Some(elements_view(elements@));
    let before_call = address.prev();
    let mut i: usize = 0;
    while i < regs.len()
        invariant
            start == Some(elements_view(old(elements)@)),
            before_call == prev_address(*address),
            i <= regs@.len(),
            Some(elements_view(elements@)) == arg_regs_view(start, regs@.subrange(0, i as int), *address),
        decreases regs.len() - i,
    {
        proof {
            assert(regs@.subrange(0, i + 1).drop_last() =~= regs@.subrange(0, i as int));
        }
        assign_register(elements, regs[i], before_call);
        match analyze_ref(elements, &IRValue::Register(regs[i]), address) {
            Ok(()) => {},
            Err(e) => {
                proof {
                    lemma_arg_regs_prefix_none(start, regs@, *address, i as int + 1);
                }
                return Err(e);
            },
        }
        i += 1;
    }
    proof {
        assert(regs@.subrange(0, i as int) =~= regs@);
    }
    Ok(())
}

/// Records what one node assigns and reads.
fn analyze_node(elements: &mut Vec<LifetimeElement>, kind: &IRNodeKind, address: &IRAddress) -> (r: Result<(), LifetimeAnalyzerError>)
    ensures
        r is Ok <==> node_view(elements_view(old(elements)@), *kind, *address) is Some,
        r is Ok ==> Some(elements_view(final(elements)@)) == node_view(elements_view(old(elements)@), *kind, *address),
        r is Err ==> r->Err_0.message@ == missing_message(node_missing(elements_view(old(elements)@), *kind, *address)),
{
    match kind {
        IRNodeKind::Assign { variable, value } => {
            analyze_assign(elements, variable, address)?;
            analyze_ref(elements, value, address)
        },
        IRNodeKind::AddressAssignment { address: target, value } => {
            analyze_ref(elements, target, address)?;
            analyze_ref(elements, value, address)
        },
        IRNodeKind::Lea { base, index, result, .. } => {
            analyze_ref(elements, base, address)?;
            analyze_ref(elements, &IRValue::Register(*index), address)?;
            analyze_assign(elements, &IRVariable::Register(*result), address)
        },
        IRNodeKind::BinaryOp { left, right, result, .. } => {
            analyze_ref(elements, left, address)?;
            analyze_ref(elements, right, address)?;
            analyze_assign(elements, &IRVariable::Register(*result), address)
        },
        IRNodeKind::UnaryOp { operand, result, .. } => {
            analyze_ref(elements, operand, address)?;
            analyze_assign(elements, &IRVariable::Register(*result), address)
        },
        IRNodeKind::FunctionCall { name, arguments, argument_regs, result } => {
            let ghost e0 = elements_view(elements@);
            match analyze_refs(elements, arguments, &address.prev()) {
                Ok(()) => {},
                Err(e) => {
                    proof {
                        lemma_arg_regs_none(argument_regs@, *address);
                    }
                    return Err(e);
                },
            }
            let ghost e1 = elements_view(elements@);
            match analyze_arg_regs(elements, argument_regs, address) {
                Ok(()) => {},
                Err(e) => {
                    return Err(e);
                },
            }
            let ghost e2 = elements_view(elements@);
            if let Some(register) = name.get_register() {
                match analyze_ref(elements, &IRValue::Register(register), address) {
                    Ok(()) => {},
                    Err(e) => {
                        return Err(e);
                    },
                }
            }
            if let Some(result_reg) = result {
                analyze_assign(elements, &IRVariable::Register(*result_reg), address)?;
            }
            Ok(())
        },
        IRNodeKind::Branch { condition: Some(condition), .. } => analyze_ref(elements, condition, address),
        IRNodeKind::Return { value: Some(value) } => analyze_ref(elements, value, address),
        _ => Ok(()),
    }
}

/// Records what the nodes of a block assign and read, in order.
fn analyze_block(elements: &mut Vec<LifetimeElement>, block: &IRBlock) -> (r: Result<(), LifetimeAnalyzerError>)
    ensures
        r is Ok <==> nodes_view(Some(elements_view(old(elements)@)), block.nodes@, block.id) is Some,
        r is Ok ==> Some(elements_view(final(elements)@)) == nodes_view(Some(elements_view(old(elements)@)), block.nodes@, block.id),
        r is Err ==> r->Err_0.message@ == missing_message(nodes_missing(Some(elements_view(old(elements)@)), block.nodes@, block.id)),
{
    let ghost prior = Some(elements_view(elements@));
    let mut n: usize = 0;
    proof {
        assert(block.nodes@.subrange(0, 0) =~= Seq::<IRNode>::empty());
    }
    while n < block.nodes.len()
        invariant
            prior == Some(elements_view(old(elements)@)),
            n <= block.nodes@.len(),
            Some(elements_view(elements@)) == nodes_view(prior, block.nodes@.subrange(0, n as int), block.id),
        decreases block.nodes.len() - n,
    {
        proof {
            assert(block.nodes@.subrange(0, n + 1).drop_last() =~= block.nodes@.subrange(0, n as int));
        }
        let address = IRAddress::new(block.id, n);
        match analyze_node(elements, &block.nodes[n].kind, &address) {
            Ok(()) => {},
            Err(e) => {
                proof {
                    lemma_nodes_prefix_none(prior, block.nodes@, block.id, n as int + 1);
                }
                return Err(e);
            },
        }
        n += 1;
    }
    proof {
        assert(block.nodes@.subrange(0, n as int) =~= block.nodes@);
    }
    Ok(())
}

/// For every register of a function, where it is assigned and where it is
/// read, in body order. The bound parameter registers are assigned at the
/// first node of the entry block and read at the second, the parameters are
/// assigned at the second; a call reads its arguments and assigns its
/// argument registers one node before itself. Fails when a register is read
/// that nothing assigned earlier in body order (string literal registers are
/// assigned just before their first read).
pub fn analyze_elements(function: &IRFunction) -> (r: Result<Vec<LifetimeElement>, LifetimeAnalyzerError>)
    requires
        function.body@.len() > 0 || (function.parameter_regs@.len() == 0 && function.parameters@.len() == 0),
    ensures
        r is Ok <==> function_elements(*function) is Some,
        r is Ok ==> Some(elements_view(r->Ok_0@)) == function_elements(*function),
        r is Err ==> r->Err_0.message@ == missing_message(function_missing(*function)),
        r is Ok && function.body@.len() > 0 && parameter_registers_distinct(*function) ==> regs_distinct(elements_view(r->Ok_0@)),
{
    proof {
        if function.body@.len() > 0 && parameter_registers_distinct(*function) {
            lemma_function_elements_distinct(*function);
        }
    }
    let mut elements: Vec<LifetimeElement> = Vec::new();
    let ghost params = parameter_elements(*function);
    let ghost first_part = Seq::new(function.parameter_regs@.len(), |i: int| (function.parameter_regs@[i], seq![IRAddress { id: function.body@[0].id, offset: 1 }], seq![IRAddress { id: function.body@[0].id, offset: 0 }]));
    let mut i: usize = 0;
    while i < function.parameter_regs.len()
        invariant
            function.body@.len() > 0 || (function.parameter_regs@.len() == 0 && function.parameters@.len() == 0),
            i <= function.parameter_regs@.len(),
            first_part == Seq::new(function.parameter_regs@.len(), |i: int| (function.parameter_regs@[i], seq![IRAddress { id: function.body@[0].id, offset: 1 }], seq![IRAddress { id: function.body@[0].id, offset: 0 }])),
            elements_view(elements@) == first_part.subrange(0, i as int),
        decreases function.parameter_regs.len() - i,
    {
        let entry = function.body[0].id;
        let mut references: Vec<IRAddress> = Vec::new();
        references.push(IRAddress::new(entry, 1));
        let mut assigns: Vec<IRAddress> = Vec::new();
        assigns.push(IRAddress::new(entry, 0));
        let e = LifetimeElement { reg: function.parameter_regs[i], references, assigns };
        let ghost before = elements@;
        elements.push(e);
        proof {
            lemma_view_push(before, e);
            assert(elements_view(elements@) =~= first_part.subrange(0, i + 1));
        }
        i += 1;
    }
    let ghost second_part = Seq::new(function.parameters@.len(), |i: int| (function.parameters@[i], Seq::<IRAddress>::empty(), seq![IRAddress { id: function.body@[0].id, offset: 1 }]));
    proof {
        assert(first_part.subrange(0, i as int) =~= first_part);
        assert(params == first_part + second_part);
    }
    let mut j: usize = 0;
    while j < function.parameters.len()
        invariant
            function.body@.len() > 0 || (function.parameter_regs@.len() == 0 && function.parameters@.len() == 0),
            j <= function.parameters@.len(),
            second_part == Seq::new(function.parameters@.len(), |i: int| (function.parameters@[i], Seq::<IRAddress>::empty(), seq![IRAddress { id: function.body@[0].id, offset: 1 }])),
            elements_view(elements@) == first_part + second_part.subrange(0, j as int),
        decreases function.parameters.len() - j,
    {
        let entry = function.body[0].id;
        let mut assigns: Vec<IRAddress> = Vec::new();
        assigns.push(IRAddress::new(entry, 1));
        let e = LifetimeElement { reg: function.parameters[j], references: Vec::new(), assigns };
        let ghost before = elements@;
        elements.push(e);
        proof {
            lemma_view_push(before, e);
            assert(elements_view(elements@) =~= first_part + second_part.subrange(0, j + 1));
        }
        j += 1;
    }
    proof {
        assert(second_part.subrange(0, j as int) =~= second_part);
        assert(elements_view(elements@) == params);
    }
    let ghost body = function.body@;
    let mut b: usize = 0;
    while b < function.body.len()
        invariant
            body == function.body@,
            params == parameter_elements(*function),
            b <= body.len(),
            Some(elements_view(elements@)) == blocks_view(Some(params), body.subrange(0, b as int)),
        decreases body.len() - b,
    {
        let block = &function.body[b];
        proof {
            assert(body.subrange(0, b + 1).drop_last() =~= body.subrange(0, b as int));
            assert(body.subrange(0, b + 1).last() == *block);
        }
        match analyze_block(&mut elements, block) {
            Ok(()) => {},
            Err(e) => {
                proof {
                    lemma_blocks_prefix_none(Some(params), body, b as int + 1);
                }
                return Err(e);
            },
        }
        b += 1;
    }
    proof {
        assert(body.subrange(0, b as int) =~= body);
    }
    Ok(elements)
}

} // verus!
