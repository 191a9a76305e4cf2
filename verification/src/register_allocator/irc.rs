//! Graph-colouring register allocation (simplify, spill selection and
//! colour assignment over the interference graph of a function).
use vstd::prelude::*;
use crate::ir_generator::domain::{same_function, IRBinaryOp, IRFunction, IRNodeKind};
use crate::lifetime_analyzer::domain::{live_together, same_live_sets, FunctionLifetime, IRAddress, LifetimeOverlaps};
use crate::lifetime_analyzer::domain::contains_register;
use crate::physical_register::{argument_register, callee_save_registers, spec_argument_register, PhysicalRegister, ARGUMENT_REGISTER_COUNT};
use crate::register_allocator::assoc::{find_key, key_index, keys_unique, lookup, put};
use crate::register_allocator::domain::RegisterAllocationFunction;
use crate::register_allocator::error::RegisterAllocatorError;
use crate::virtual_register::VirtualRegister;

verus! {

/// The registers available for colouring, in the order of their names
/// (`R10` … `R15`, `R8`, `R9`, `RAX`, …): every caller- and callee-saved
/// register except the stack and frame pointers.
pub open spec fn colour_order() -> Seq<PhysicalRegister> {
    seq![
        PhysicalRegister::R10,
        PhysicalRegister::R11,
        PhysicalRegister::R12,
        PhysicalRegister::R13,
        PhysicalRegister::R14,
        PhysicalRegister::R15,
        PhysicalRegister::R8,
        PhysicalRegister::R9,
        PhysicalRegister::RAX,
        PhysicalRegister::RBX,
        PhysicalRegister::RCX,
        PhysicalRegister::RDI,
        PhysicalRegister::RDX,
        PhysicalRegister::RSI,
    ]
}

fn colour_registers() -> (r: Vec<PhysicalRegister>)
    ensures
        r@ == colour_order(),
{
    vec![
        PhysicalRegister::R10,
        PhysicalRegister::R11,
        PhysicalRegister::R12,
        PhysicalRegister::R13,
        PhysicalRegister::R14,
        PhysicalRegister::R15,
        PhysicalRegister::R8,
        PhysicalRegister::R9,
        PhysicalRegister::RAX,
        PhysicalRegister::RBX,
        PhysicalRegister::RCX,
        PhysicalRegister::RDI,
        PhysicalRegister::RDX,
        PhysicalRegister::RSI,
    ]
}

fn contains_physical(v: &Vec<PhysicalRegister>, p: PhysicalRegister) -> (r: bool)
    ensures
        r == v@.contains(p),
{
    let mut i: usize = 0;
    while i < v.len()
        invariant
            i <= v@.len(),
            forall|j: int| 0 <= j < i ==> v@[j] != p,
        decreases v.len() - i,
    {
        if v[i] == p {
            proof {
                assert(v@[i as int] == p);
            }
            return true;
        }
        i += 1;
    }
    false
}

/// `10^d`, saturating at `u64::MAX`.
pub open spec fn pow10(d: nat) -> nat
    decreases d,
{
    if d == 0 {
        1
    } else {
        10 * pow10((d - 1) as nat)
    }
}

pub open spec fn saturate(x: nat) -> u64 {
    if x > u64::MAX {
        u64::MAX
    } else {
        x as u64
    }
}

/// `a * b`, or `u64::MAX` when the product does not fit.
fn saturating_product(a: u64, b: u64) -> (r: u64)
    ensures
        r == saturate(a as nat * b as nat),
{
    match a.checked_mul(b) {
        Some(v) => v,
        None => u64::MAX,
    }
}

fn pow10_saturating(d: u64) -> (r: u64)
    ensures
        r == saturate(pow10(d as nat)),
{
    let mut r: u64 = 1;
    let mut i: u64 = 0;
    while i < d
        invariant
            i <= d,
            r == saturate(pow10(i as nat)),
        decreases d - i,
    {
        proof {
            assert(pow10((i + 1) as nat) == 10 * pow10(i as nat));
            lemma_pow10_positive(i as nat);
        }
        r = saturating_product(r, 10);
        i += 1;
    }
    r
}

proof fn lemma_pow10_positive(d: nat)
    ensures
        pow10(d) >= 1,
    decreases d,
{
    if d > 0 {
        lemma_pow10_positive((d - 1) as nat);
    }
}

/// How deep in loops each block is: for every jump (or fall-through) to a
/// block at or before the position of the jumping block, the target's count
/// goes up by one. Block ids index the result.
fn calculate_loop_depth(function: &IRFunction) -> (r: Vec<(usize, u64)>)
    ensures
        forall|i: int, j: int| 0 <= i < r@.len() && 0 <= j < r@.len() && r@[i].0 == r@[j].0 ==> i == j,
{
    // Successors of each block, in body order.
    let mut successors: Vec<(usize, Vec<usize>)> = Vec::new();
    let n = function.body.len();
    let mut i: usize = 0;
    while i < n
        invariant
            n == function.body@.len(),
            i <= n,
        decreases n - i,
    {
        let block = &function.body[i];
        let mut list: Vec<usize> = Vec::new();
        if block.nodes.len() > 0 {
            if let IRNodeKind::Branch { true_branch, false_branch, .. } = &block.nodes[block.nodes.len() - 1].kind {
                if let Some(t) = true_branch {
                    list.push(*t);
                }
                if let Some(f) = false_branch {
                    list.push(*f);
                }
            }
        }
        if block.is_connected_to_next() && i + 1 < n {
            list.push(function.body[i + 1].id);
        }
        let mut k: usize = 0;
        let mut found = false;
        while k < successors.len()
            invariant
                k <= successors@.len(),
            decreases successors.len() - k,
        {
            if successors[k].0 == block.id {
                found = true;
                break;
            }
            k += 1;
        }
        if found && k < successors.len() {
            let (id, mut existing) = successors.remove(k);
            existing.append(&mut list);
            successors.insert(k, (id, existing));
        } else {
            successors.push((block.id, list));
        }
        i += 1;
    }
    let mut depths: Vec<(usize, u64)> = Vec::new();
    let mut p: usize = 0;
    while p < n
        invariant
            n == function.body@.len(),
            p <= n,
            forall|a: int, b: int| 0 <= a < depths@.len() && 0 <= b < depths@.len() && depths@[a].0 == depths@[b].0 ==> a == b,
        decreases n - p,
    {
        let id = function.body[p].id;
        let mut k: usize = 0;
        while k < successors.len()
            invariant
                k <= successors@.len(),
                forall|a: int, b: int| 0 <= a < depths@.len() && 0 <= b < depths@.len() && depths@[a].0 == depths@[b].0 ==> a == b,
            decreases successors.len() - k,
        {
            if successors[k].0 == id {
                let succs = &successors[k].1;
                let mut s: usize = 0;
                while s < succs.len()
                    invariant
                        s <= succs@.len(),
                        forall|a: int, b: int| 0 <= a < depths@.len() && 0 <= b < depths@.len() && depths@[a].0 == depths@[b].0 ==> a == b,
                    decreases succs.len() - s,
                {
                    let target = succs[s];
                    if target <= p {
                        bump_depth(&mut depths, target);
                    }
                    s += 1;
                }
                break;
            }
            k += 1;
        }
        p += 1;
    }
    depths
}

/// Adds one to the depth of a block (starting from zero).
fn bump_depth(depths: &mut Vec<(usize, u64)>, id: usize)
    requires
        forall|a: int, b: int| 0 <= a < old(depths)@.len() && 0 <= b < old(depths)@.len() && old(depths)@[a].0 == old(depths)@[b].0 ==> a == b,
    ensures
        forall|a: int, b: int| 0 <= a < final(depths)@.len() && 0 <= b < final(depths)@.len() && final(depths)@[a].0 == final(depths)@[b].0 ==> a == b,
{
    let mut k: usize = 0;
    while k < depths.len()
        invariant
            k <= depths@.len(),
            depths@ == old(depths)@,
            forall|a: int, b: int| 0 <= a < depths@.len() && 0 <= b < depths@.len() && depths@[a].0 == depths@[b].0 ==> a == b,
            forall|j: int| 0 <= j < k ==> depths@[j].0 != id,
        decreases depths.len() - k,
    {
        if depths[k].0 == id {
            let d = depths[k].1;
            let ghost before = depths@;
            depths.set(k, (id, d.saturating_add(1)));
            proof {
                assert forall|j: int| 0 <= j < depths@.len() implies #[trigger] depths@[j].0 == before[j].0 by {}
            }
            return;
        }
        k += 1;
    }
    depths.push((id, 1));
}

fn depth_of(depths: &Vec<(usize, u64)>, id: usize) -> (r: Option<u64>) {
    let mut k: usize = 0;
    while k < depths.len()
        invariant
            k <= depths@.len(),
        decreases depths.len() - k,
    {
        if depths[k].0 == id {
            return Some(depths[k].1);
        }
        k += 1;
    }
    None
}

/// The error for a function with more parameters than argument registers.
pub open spec fn too_many_parameters(f: IRFunction) -> RegisterAllocatorError {
    RegisterAllocatorError::TooManyParameters { function: f.name, actual: f.parameter_regs@.len() as usize }
}

/// A call that passes more arguments than there are argument registers.
pub open spec fn wide_call(k: IRNodeKind) -> bool {
    match k {
        IRNodeKind::FunctionCall { argument_regs, .. } => argument_regs@.len() > ARGUMENT_REGISTER_COUNT,
        _ => false,
    }
}

/// The error for a call that passes more than six arguments.
pub open spec fn wide_call_error(f: IRFunction, k: IRNodeKind) -> RegisterAllocatorError {
    match k {
        IRNodeKind::FunctionCall { argument_regs, .. } => RegisterAllocatorError::TooManyArguments {
            function: f.name,
            actual: argument_regs@.len() as usize,
        },
        _ => RegisterAllocatorError::TooManyArguments { function: f.name, actual: 0 },
    }
}

/// Some node of the function is a [`wide_call`].
pub open spec fn has_wide_call(f: IRFunction) -> bool {
    exists|b: int, n: int| 0 <= b < f.body@.len() && 0 <= n < f.body@[b].nodes@.len() && wide_call(#[trigger] f.body@[b].nodes@[n].kind)
}

/// Why fixing registers fails: more than six parameters, or else a call
/// with more than six arguments (the error names the function and that
/// call's argument count).
pub open spec fn convention_error(f: IRFunction, e: RegisterAllocatorError) -> bool {
    if f.parameter_regs@.len() > ARGUMENT_REGISTER_COUNT {
        e == too_many_parameters(f)
    } else {
        exists|b: int, n: int| 0 <= b < f.body@.len() && 0 <= n < f.body@[b].nodes@.len()
            && wide_call(#[trigger] f.body@[b].nodes@[n].kind) && e == wide_call_error(f, f.body@[b].nodes@[n].kind)
    }
}

/// The error that reports registers the colouring had to spill.
pub open spec fn spill_error(e: RegisterAllocatorError) -> bool {
    match e {
        RegisterAllocatorError::Other { message } => exists|rest: Seq<char>| message@ == "Register spilling is required for "@ + rest,
        _ => false,
    }
}

/// A node of a function fixes the physical register of `v`: a call's
/// argument or result register, or a division's quotient or remainder.
pub open spec fn fixes(k: IRNodeKind, v: VirtualRegister) -> bool {
    match k {
        IRNodeKind::BinaryOp { op: IRBinaryOp::Div, result, optional_result, .. } => result == v || optional_result == Some(v),
        IRNodeKind::FunctionCall { argument_regs, result, .. } => argument_regs@.contains(v) || result == Some(v),
        _ => false,
    }
}

/// The calling convention fixes the physical register of `v` in `f`: a
/// bound parameter, or a register some node fixes.
pub open spec fn fixed_register(f: IRFunction, v: VirtualRegister) -> bool {
    ||| f.parameter_regs@.contains(v)
    ||| exists|b: int, n: int| 0 <= b < f.body@.len() && 0 <= n < f.body@[b].nodes@.len() && #[trigger] fixes(f.body@[b].nodes@[n].kind, v)
}

/// A node fixes `v` to `p`: a division's quotient to `%rax` and remainder
/// to `%rdx`, a call's arguments to the argument registers in order and its
/// result to `%rax`.
pub open spec fn fixes_to(k: IRNodeKind, v: VirtualRegister, p: PhysicalRegister) -> bool {
    match k {
        IRNodeKind::BinaryOp { op: IRBinaryOp::Div, result, optional_result, .. } => (result == v && p == PhysicalRegister::RAX)
            || (optional_result == Some(v) && p == PhysicalRegister::RDX),
        IRNodeKind::FunctionCall { argument_regs, result, .. } => (exists|a: int|
            0 <= a < argument_regs@.len() && argument_regs@[a] == v && p == spec_argument_register(a)) || (result == Some(v) && p
            == PhysicalRegister::RAX),
        _ => false,
    }
}

/// The calling convention fixes `v` in `f` to `p`: the i-th bound parameter
/// to the i-th argument register, or some node fixes it there.
pub open spec fn fixed_to(f: IRFunction, v: VirtualRegister, p: PhysicalRegister) -> bool {
    ||| exists|i: int| 0 <= i < f.parameter_regs@.len() && f.parameter_regs@[i] == v && p == spec_argument_register(i)
    ||| exists|b: int, n: int|
        0 <= b < f.body@.len() && 0 <= n < f.body@[b].nodes@.len() && #[trigger] fixes_to(f.body@[b].nodes@[n].kind, v, p)
}

/// Every register fixed in the map is fixed there by the calling convention.
spec fn pre_ok(pre: Seq<(VirtualRegister, PhysicalRegister)>, f: IRFunction) -> bool {
    forall|x: VirtualRegister| #[trigger] lookup(pre, x) is Some ==> fixed_to(f, x, lookup(pre, x)->0)
}

/// Two registers are live together before some address.
pub open spec fn interfere(live_in: Seq<(IRAddress, Vec<VirtualRegister>)>, x: VirtualRegister, y: VirtualRegister) -> bool {
    live_together(live_in, x, y) || live_together(live_in, y, x)
}

/// A register that the calling convention does not fix never shares its
/// physical register with a register it is live together with.
pub open spec fn valid_colouring(f: IRFunction, live_in: Seq<(IRAddress, Vec<VirtualRegister>)>, m: Seq<(VirtualRegister, PhysicalRegister)>) -> bool {
    forall|x: VirtualRegister, y: VirtualRegister|
        x != y && interfere(live_in, x, y) && !fixed_register(f, x) && (#[trigger] lookup(m, x)) is Some && (#[trigger] lookup(m, y)) is Some
            ==> lookup(m, x) != lookup(m, y)
}

/// Live sets that agree entry by entry give the same interference, so an
/// allocation valid for one is valid for the other.
pub proof fn lemma_valid_colouring_same_live_sets(
    f: IRFunction,
    a: Seq<(IRAddress, Vec<VirtualRegister>)>,
    b: Seq<(IRAddress, Vec<VirtualRegister>)>,
    m: Seq<(VirtualRegister, PhysicalRegister)>,
)
    requires
        same_live_sets(a, b),
        valid_colouring(f, a, m),
    ensures
        valid_colouring(f, b, m),
{
    assert forall|x: VirtualRegister, y: VirtualRegister| #[trigger] live_together(b, x, y) implies live_together(a, x, y) by {
        let (k, i, j) = choose|k: int, i: int, j: int|
            0 <= k < b.len() && 0 <= i < j < b[k].1@.len() && #[trigger] b[k].1@[i] == x && #[trigger] b[k].1@[j] == y;
        assert(a[k].1@ == b[k].1@);
        assert(a[k].1@[i] == x && a[k].1@[j] == y);
    }
    assert forall|x: VirtualRegister, y: VirtualRegister|
        x != y && interfere(b, x, y) && !fixed_register(f, x) && (#[trigger] lookup(m, x)) is Some && (#[trigger] lookup(m, y)) is Some
            implies lookup(m, x) != lookup(m, y) by {
        assert(interfere(a, x, y));
    }
}

/// Every register of an interference graph, with repetitions: each key, then
/// its neighbours.
spec fn graph_nodes(adj: Seq<(VirtualRegister, Vec<VirtualRegister>)>) -> Seq<VirtualRegister>
    decreases adj.len(),
{
    if adj.len() == 0 {
        Seq::empty()
    } else {
        graph_nodes(adj.drop_last()) + seq![adj.last().0] + adj.last().1@
    }
}

/// How many entries of `s` are not in `sel`.
spec fn count_outside(s: Seq<VirtualRegister>, sel: Seq<VirtualRegister>) -> nat
    decreases s.len(),
{
    if s.len() == 0 {
        0
    } else {
        count_outside(s.drop_last(), sel) + if sel.contains(s.last()) {
            0nat
        } else {
            1nat
        }
    }
}

proof fn lemma_count_outside(s: Seq<VirtualRegister>, sel: Seq<VirtualRegister>, v: VirtualRegister)
    ensures
        count_outside(s, sel.push(v)) <= count_outside(s, sel),
        s.contains(v) && !sel.contains(v) ==> count_outside(s, sel.push(v)) < count_outside(s, sel),
    decreases s.len(),
{
    if s.len() > 0 {
        lemma_count_outside(s.drop_last(), sel, v);
        crate::control_flow::graph::lemma_push_contains(sel, v, s.last());
        if s.contains(v) && !sel.contains(v) && s.last() != v {
            let i = choose|i: int| 0 <= i < s.len() && s[i] == v;
            assert(s.drop_last()[i] == v);
        }
    }
}

proof fn lemma_graph_nodes(adj: Seq<(VirtualRegister, Vec<VirtualRegister>)>, x: VirtualRegister, y: VirtualRegister)
    ensures
        key_index(adj, x) >= 0 ==> graph_nodes(adj).contains(x),
        key_index(adj, x) >= 0 && adj[key_index(adj, x)].1@.contains(y) ==> graph_nodes(adj).contains(y),
    decreases adj.len(),
{
    crate::register_allocator::assoc::lemma_key_index(adj, x);
    if adj.len() > 0 {
        crate::register_allocator::assoc::lemma_key_index(adj.drop_last(), x);
        lemma_graph_nodes(adj.drop_last(), x, y);
        let g = graph_nodes(adj);
        let p = graph_nodes(adj.drop_last());
        assert(g == p + seq![adj.last().0] + adj.last().1@);
        if key_index(adj, x) >= 0 {
            if key_index(adj.drop_last(), x) >= 0 {
                assert(adj[key_index(adj, x)] == adj.drop_last()[key_index(adj.drop_last(), x)]);
                if p.contains(x) {
                    let i = choose|i: int| 0 <= i < p.len() && p[i] == x;
                    assert(g[i] == x);
                }
                if adj[key_index(adj, x)].1@.contains(y) && p.contains(y) {
                    let i = choose|i: int| 0 <= i < p.len() && p[i] == y;
                    assert(g[i] == y);
                }
            } else {
                assert(g[p.len() as int] == x);
                if adj.last().1@.contains(y) {
                    let i = choose|i: int| 0 <= i < adj.last().1@.len() && adj.last().1@[i] == y;
                    assert(g[p.len() + 1 + i] == y);
                }
            }
        }
    }
}

/// The neighbours of a register in an interference graph.
spec fn neighbours_in(adj: Seq<(VirtualRegister, Vec<VirtualRegister>)>, v: VirtualRegister) -> Seq<VirtualRegister> {
    match lookup(adj, v) {
        Some(l) => l@,
        None => Seq::empty(),
    }
}

/// No register is its own neighbour, edges between registers that are not
/// fixed go both ways, and every register is its own alias.
spec fn graph_ok_in(
    adj: Seq<(VirtualRegister, Vec<VirtualRegister>)>,
    pre: Seq<(VirtualRegister, PhysicalRegister)>,
    alias: Seq<(VirtualRegister, VirtualRegister)>,
) -> bool {
    &&& forall|v: VirtualRegister| !(#[trigger] neighbours_in(adj, v)).contains(v)
    &&& forall|a: VirtualRegister, b: VirtualRegister|
        #[trigger] neighbours_in(adj, a).contains(b) && lookup(pre, a) is None && lookup(pre, b) is None ==> neighbours_in(adj, b).contains(a)
    &&& forall|v: VirtualRegister| (#[trigger] lookup(alias, v)) is Some ==> lookup(alias, v) == Some(v)
}

/// A register that is not fixed has a colour different from each coloured
/// neighbour.
spec fn colouring_ok_in(
    adj: Seq<(VirtualRegister, Vec<VirtualRegister>)>,
    pre: Seq<(VirtualRegister, PhysicalRegister)>,
    colours: Seq<(VirtualRegister, PhysicalRegister)>,
) -> bool {
    forall|a: VirtualRegister, b: VirtualRegister|
        #[trigger] neighbours_in(adj, a).contains(b) && lookup(pre, a) is None && lookup(colours, a) is Some
            && lookup(colours, b) is Some ==> lookup(colours, a) != lookup(colours, b)
}

/// The state of the colouring of one function.
struct Allocator {
    /// Interference neighbours of each register.
    adj_list: Vec<(VirtualRegister, Vec<VirtualRegister>)>,
    /// How many interference edges each register still has.
    degree: Vec<(VirtualRegister, usize)>,
    /// The register each register was merged into (itself).
    alias: Vec<(VirtualRegister, VirtualRegister)>,
    physical_registers: Vec<PhysicalRegister>,
    /// Registers whose physical register is fixed.
    pre_colored: Vec<(VirtualRegister, PhysicalRegister)>,
    /// Registers that should get a given physical register when it is free.
    color_preferred: Vec<(VirtualRegister, PhysicalRegister)>,
    /// Registers live across a call (callee-saved registers suit them).
    live_across_calls: Vec<VirtualRegister>,
    simplify_worklist: Vec<VirtualRegister>,
    spill_worklist: Vec<VirtualRegister>,
    coalesce_worklist: Vec<(VirtualRegister, VirtualRegister)>,
    select_stack: Vec<VirtualRegister>,
    spilled_nodes: Vec<VirtualRegister>,
    colored_nodes: Vec<(VirtualRegister, PhysicalRegister)>,
    /// What spilling each register would cost.
    spill_costs: Vec<(VirtualRegister, u64)>,
}

impl Allocator {
    /// The maps are association lists with each key once, and there are
    /// colours to choose from.
    spec fn wf(&self) -> bool {
        &&& keys_unique(self.adj_list@)
        &&& keys_unique(self.degree@)
        &&& keys_unique(self.alias@)
        &&& keys_unique(self.pre_colored@)
        &&& keys_unique(self.color_preferred@)
        &&& keys_unique(self.colored_nodes@)
        &&& keys_unique(self.spill_costs@)
        &&& self.physical_registers@ == colour_order()
    }

    /// The neighbours of a register.
    spec fn adj_of(&self, v: VirtualRegister) -> Seq<VirtualRegister> {
        neighbours_in(self.adj_list@, v)
    }

    spec fn fixed(&self, v: VirtualRegister) -> bool {
        lookup(self.pre_colored@, v) is Some
    }

    /// No register is its own neighbour, edges between registers that are
    /// not fixed go both ways, and every register is its own alias.
    spec fn graph_ok(&self) -> bool {
        graph_ok_in(self.adj_list@, self.pre_colored@, self.alias@)
    }

    spec fn in_graph(&self, x: VirtualRegister) -> bool {
        graph_nodes(self.adj_list@).contains(x)
    }

    /// The select stack and the simplify list hold each register once; a
    /// register is on at most one of the simplify list, the spill list and
    /// the select stack; all of them are graph registers that are not
    /// fixed; nothing waits to be merged.
    spec fn lists_ok(&self) -> bool {
        &&& self.select_stack@.no_duplicates()
        &&& self.simplify_worklist@.no_duplicates()
        &&& self.coalesce_worklist@.len() == 0
        &&& forall|x: VirtualRegister| #[trigger] self.simplify_worklist@.contains(x)
            ==> !self.select_stack@.contains(x) && !self.spill_worklist@.contains(x) && self.in_graph(x) && !self.fixed(x)
        &&& forall|x: VirtualRegister| #[trigger] self.spill_worklist@.contains(x)
            ==> !self.select_stack@.contains(x) && self.in_graph(x) && !self.fixed(x)
        &&& forall|x: VirtualRegister| #[trigger] self.select_stack@.contains(x) ==> self.in_graph(x) && !self.fixed(x)
    }

    /// Graph entries whose register is not yet on the select stack.
    spec fn remaining(&self) -> nat {
        count_outside(graph_nodes(self.adj_list@), self.select_stack@)
    }

    /// Coloured neighbours have different colours.
    spec fn colouring_ok(&self) -> bool {
        colouring_ok_in(self.adj_list@, self.pre_colored@, self.colored_nodes@)
    }

    /// The graph and the work lists are those of `other`.
    spec fn graph_unchanged(&self, other: Self) -> bool {
        &&& self.adj_list == other.adj_list
        &&& self.alias == other.alias
        &&& self.select_stack == other.select_stack
        &&& self.simplify_worklist == other.simplify_worklist
        &&& self.spill_worklist == other.spill_worklist
        &&& self.coalesce_worklist == other.coalesce_worklist
        &&& self.colored_nodes == other.colored_nodes
    }

    fn new(function: &IRFunction, lifetime: &FunctionLifetime, overlaps: &LifetimeOverlaps) -> (r: Result<Self, RegisterAllocatorError>)
        requires
            function.parameters@.len() == function.parameter_regs@.len(),
        ensures
            r matches Ok(a) ==> a.wf() && a.graph_ok() && a.lists_ok() && a.colored_nodes@.len() == 0,
            r matches Ok(a) ==> forall|i: int| 0 <= i < function.parameter_regs@.len() ==> lookup(a.pre_colored@, #[trigger] function.parameter_regs@[i]) is Some,
            r matches Ok(a) ==> forall|x: VirtualRegister| #[trigger] lookup(a.pre_colored@, x) is Some ==> fixed_register(*function, x),
            r matches Ok(a) ==> pre_ok(a.pre_colored@, *function),
            r matches Ok(a) ==> forall|x: VirtualRegister| #[trigger] fixed_register(*function, x) ==> lookup(a.pre_colored@, x) is Some,
            r matches Ok(a) ==> forall|x: VirtualRegister, y: VirtualRegister| #[trigger] overlaps.overlaps@.contains((x, y)) && x != y
                ==> (lookup(a.pre_colored@, x) is None ==> neighbours_in(a.adj_list@, x).contains(y))
                && (lookup(a.pre_colored@, y) is None ==> neighbours_in(a.adj_list@, y).contains(x)),
            (function.parameter_regs@.len() > ARGUMENT_REGISTER_COUNT) ==> r == Err::<Allocator, RegisterAllocatorError>(
                too_many_parameters(*function),
            ),
            r is Ok <==> function.parameter_regs@.len() <= ARGUMENT_REGISTER_COUNT && !has_wide_call(*function),
            r is Err ==> convention_error(*function, r->Err_0),
    {
        let mut allocator = Allocator {
            adj_list: Vec::new(),
            degree: Vec::new(),
            alias: Vec::new(),
            physical_registers: colour_registers(),
            pre_colored: Vec::new(),
            color_preferred: Vec::new(),
            live_across_calls: Vec::new(),
            simplify_worklist: Vec::new(),
            spill_worklist: Vec::new(),
            coalesce_worklist: Vec::new(),
            select_stack: Vec::new(),
            spilled_nodes: Vec::new(),
            colored_nodes: Vec::new(),
            spill_costs: Vec::new(),
        };
        allocator.calculate_spill_costs(function, lifetime);
        allocator.collect_precolored_registers(function)?;
        allocator.collect_color_preferred_registers(function);
        allocator.find_live_across_calls(function, lifetime);
        allocator.build_graph(lifetime, overlaps);
        let ghost built = allocator;
        allocator.make_worklist();
        proof {
            assert forall|x: VirtualRegister, y: VirtualRegister| #[trigger] overlaps.overlaps@.contains((x, y)) && x != y
                implies (lookup(allocator.pre_colored@, x) is None ==> neighbours_in(allocator.adj_list@, x).contains(y))
                && (lookup(allocator.pre_colored@, y) is None ==> neighbours_in(allocator.adj_list@, y).contains(x)) by {
                assert(built.adj_of(x) == neighbours_in(allocator.adj_list@, x));
                assert(built.adj_of(y) == neighbours_in(allocator.adj_list@, y));
            }
        }
        Ok(allocator)
    }

    /// The cost of spilling each register: how often it is assigned or
    /// read, times ten to the deepest loop depth among those places.
    fn calculate_spill_costs(&mut self, function: &IRFunction, lifetime: &FunctionLifetime)
        requires
            old(self).wf(),
        ensures
            final(self).wf(),
            final(self).graph_unchanged(*old(self)),
            final(self).pre_colored == old(self).pre_colored,
    {
        let depths = calculate_loop_depth(function);
        let mut i: usize = 0;
        while i < lifetime.elements.len()
            invariant
                self.wf(),
                self.graph_unchanged(*old(self)),
                self.pre_colored == old(self).pre_colored,
                i <= lifetime.elements@.len(),
            decreases lifetime.elements.len() - i,
        {
            let element = &lifetime.elements[i];
            let count = element.assigns.len() as u64;
            let count = count.saturating_add(element.references.len() as u64);
            let mut max_depth: u64 = 0;
            let mut j: usize = 0;
            while j < element.assigns.len()
                invariant
                    j <= element.assigns@.len(),
                decreases element.assigns.len() - j,
            {
                if let Some(d) = depth_of(&depths, element.assigns[j].id) {
                    if d > max_depth {
                        max_depth = d;
                    }
                }
                j += 1;
            }
            let mut k: usize = 0;
            while k < element.references.len()
                invariant
                    k <= element.references@.len(),
                decreases element.references.len() - k,
            {
                if let Some(d) = depth_of(&depths, element.references[k].id) {
                    if d > max_depth {
                        max_depth = d;
                    }
                }
                k += 1;
            }
            let cost = saturating_product(count, pow10_saturating(max_depth));
            put(&mut self.spill_costs, element.reg, cost);
            i += 1;
        }
    }

    /// Fixed registers: bound parameters and call arguments get the argument
    /// registers in order, a division's quotient `%rax` and remainder
    /// `%rdx`, a call's result `%rax`. Fails when a function takes, or a call
    /// passes, more than six arguments.
    fn collect_precolored_registers(&mut self, function: &IRFunction) -> (r: Result<(), RegisterAllocatorError>)
        requires
            old(self).wf(),
            old(self).pre_colored@.len() == 0,
        ensures
            final(self).wf(),
            final(self).graph_unchanged(*old(self)),
            forall|x: VirtualRegister| #[trigger] lookup(final(self).pre_colored@, x) is Some ==> fixed_register(*function, x),
            pre_ok(final(self).pre_colored@, *function),
            r is Ok ==> forall|i: int| 0 <= i < function.parameter_regs@.len() ==> lookup(final(self).pre_colored@, #[trigger] function.parameter_regs@[i]) is Some,
            r is Ok ==> forall|x: VirtualRegister| #[trigger] fixed_register(*function, x) ==> lookup(final(self).pre_colored@, x) is Some,
            (function.parameter_regs@.len() > ARGUMENT_REGISTER_COUNT) ==> r == Err::<(), RegisterAllocatorError>(too_many_parameters(*function)),
            r is Ok <==> function.parameter_regs@.len() <= ARGUMENT_REGISTER_COUNT && !has_wide_call(*function),
            r is Err ==> convention_error(*function, r->Err_0),
    {
        if function.parameter_regs.len() > ARGUMENT_REGISTER_COUNT {
            return Err(RegisterAllocatorError::TooManyParameters {
                function: function.name.clone(),
                actual: function.parameter_regs.len(),
            });
        }
        let mut i: usize = 0;
        while i < function.parameter_regs.len()
            invariant
                self.wf(),
                self.graph_unchanged(*old(self)),
                forall|x: VirtualRegister| #[trigger] lookup(self.pre_colored@, x) is Some ==> fixed_register(*function, x),
                pre_ok(self.pre_colored@, *function),
                function.parameter_regs@.len() <= ARGUMENT_REGISTER_COUNT,
                i <= function.parameter_regs@.len(),
                forall|j: int| 0 <= j < i ==> lookup(self.pre_colored@, #[trigger] function.parameter_regs@[j]) is Some,
            decreases function.parameter_regs.len() - i,
        {
            let ghost before = self.pre_colored@;
            let p = argument_register(i);
            put(&mut self.pre_colored, function.parameter_regs[i], p);
            proof {
                assert forall|j: int| 0 <= j < i + 1 implies lookup(self.pre_colored@, #[trigger] function.parameter_regs@[j]) is Some by {
                    if function.parameter_regs@[j] != function.parameter_regs@[i as int] {
                        assert(lookup(before, function.parameter_regs@[j]) is Some);
                    }
                }
                assert(fixed_to(*function, function.parameter_regs@[i as int], p));
                assert forall|x: VirtualRegister| #[trigger] lookup(self.pre_colored@, x) is Some implies fixed_to(*function, x, lookup(self.pre_colored@, x)->0) by {
                    if x != function.parameter_regs@[i as int] {
                        assert(lookup(before, x) == lookup(self.pre_colored@, x));
                    }
                }
            }
            i += 1;
        }
        let mut b: usize = 0;
        while b < function.body.len()
            invariant
                self.wf(),
                self.graph_unchanged(*old(self)),
                forall|x: VirtualRegister| #[trigger] lookup(self.pre_colored@, x) is Some ==> fixed_register(*function, x),
                pre_ok(self.pre_colored@, *function),
                function.parameter_regs@.len() <= ARGUMENT_REGISTER_COUNT,
                b <= function.body@.len(),
                forall|j: int| 0 <= j < function.parameter_regs@.len() ==> lookup(self.pre_colored@, #[trigger] function.parameter_regs@[j]) is Some,
                forall|b2: int, n2: int, v: VirtualRegister|
                    0 <= b2 < b && 0 <= n2 < function.body@[b2].nodes@.len() && #[trigger] fixes(function.body@[b2].nodes@[n2].kind, v)
                        ==> lookup(self.pre_colored@, v) is Some,
                forall|b2: int, n2: int| 0 <= b2 < b && 0 <= n2 < function.body@[b2].nodes@.len() ==> !wide_call(#[trigger] function.body@[b2].nodes@[n2].kind),
            decreases function.body.len() - b,
        {
            let block = &function.body[b];
            let mut n: usize = 0;
            while n < block.nodes.len()
                invariant
                    self.wf(),
                    self.graph_unchanged(*old(self)),
                    forall|x: VirtualRegister| #[trigger] lookup(self.pre_colored@, x) is Some ==> fixed_register(*function, x),
                    pre_ok(self.pre_colored@, *function),
                    function.parameter_regs@.len() <= ARGUMENT_REGISTER_COUNT,
                    n <= block.nodes@.len(),
                    b < function.body@.len(),
                    *block == function.body@[b as int],
                    forall|j: int| 0 <= j < function.parameter_regs@.len() ==> lookup(self.pre_colored@, #[trigger] function.parameter_regs@[j]) is Some,
                    forall|b2: int, n2: int, v: VirtualRegister|
                        0 <= b2 < function.body@.len() && 0 <= n2 < function.body@[b2].nodes@.len() && (b2 < b || (b2 == b && n2 < n))
                            && #[trigger] fixes(function.body@[b2].nodes@[n2].kind, v) ==> lookup(self.pre_colored@, v) is Some,
                    forall|b2: int, n2: int| 0 <= b2 < function.body@.len() && 0 <= n2 < function.body@[b2].nodes@.len() && (b2 < b || (b2 == b && n2 < n))
                        ==> !wide_call(#[trigger] function.body@[b2].nodes@[n2].kind),
                decreases block.nodes.len() - n,
            {
                let ghost kind = function.body@[b as int].nodes@[n as int].kind;
                let ghost pre_node = self.pre_colored@;
                match &block.nodes[n].kind {
                    IRNodeKind::BinaryOp { op: IRBinaryOp::Div, result, optional_result, .. } => {
                        proof {
                            assert(fixes(kind, *result));
                            assert(fixes_to(kind, *result, PhysicalRegister::RAX));
                        }
                        self.precolor(*result, PhysicalRegister::RAX, function);
                        if let Some(rem) = optional_result {
                            proof {
                                assert(fixes(kind, *rem));
                                assert(fixes_to(kind, *rem, PhysicalRegister::RDX));
                            }
                            self.precolor(*rem, PhysicalRegister::RDX, function);
                        }
                    },
                    IRNodeKind::FunctionCall { argument_regs, result, .. } => {
                        if argument_regs.len() > ARGUMENT_REGISTER_COUNT {
                            proof {
                                assert(wide_call(function.body@[b as int].nodes@[n as int].kind));
                            }
                            return Err(RegisterAllocatorError::TooManyArguments {
                                function: function.name.clone(),
                                actual: argument_regs.len(),
                            });
                        }
                        let mut a: usize = 0;
                        while a < argument_regs.len()
                            invariant
                                self.wf(),
                                self.graph_unchanged(*old(self)),
                                forall|x: VirtualRegister| #[trigger] lookup(self.pre_colored@, x) is Some ==> fixed_register(*function, x),
                                pre_ok(self.pre_colored@, *function),
                                argument_regs@.len() <= ARGUMENT_REGISTER_COUNT,
                                a <= argument_regs@.len(),
                                b < function.body@.len(),
                                n < function.body@[b as int].nodes@.len(),
                                kind == function.body@[b as int].nodes@[n as int].kind,
                                kind matches IRNodeKind::FunctionCall { argument_regs: ar, .. } && ar@ == argument_regs@,
                                forall|j: int| 0 <= j < function.parameter_regs@.len() ==> lookup(self.pre_colored@, #[trigger] function.parameter_regs@[j]) is Some,
                                forall|x: VirtualRegister| #[trigger] lookup(pre_node, x) is Some ==> lookup(self.pre_colored@, x) is Some,
                                forall|a2: int| 0 <= a2 < a ==> lookup(self.pre_colored@, #[trigger] argument_regs@[a2]) is Some,
                            decreases argument_regs.len() - a,
                        {
                            proof {
                                assert(argument_regs@.contains(argument_regs@[a as int]));
                                assert(fixes(kind, argument_regs@[a as int]));
                            }
                            let p = argument_register(a);
                            proof {
                                assert(fixes_to(kind, argument_regs@[a as int], p));
                            }
                            let ghost before_arg = self.pre_colored@;
                            self.precolor(argument_regs[a], p, function);
                            proof {
                                assert forall|a2: int| 0 <= a2 < a + 1 implies lookup(self.pre_colored@, #[trigger] argument_regs@[a2]) is Some by {
                                    if a2 < a {
                                        assert(lookup(before_arg, argument_regs@[a2]) is Some);
                                    }
                                }
                            }
                            a += 1;
                        }
                        if let Some(res) = result {
                            proof {
                                assert(fixes(kind, *res));
                                assert(fixes_to(kind, *res, PhysicalRegister::RAX));
                            }
                            self.precolor(*res, PhysicalRegister::RAX, function);
                        }
                    },
                    _ => {},
                }
                proof {
                    assert forall|v: VirtualRegister| #[trigger] fixes(kind, v) implies lookup(self.pre_colored@, v) is Some by {
                        match kind {
                            IRNodeKind::FunctionCall { argument_regs: ar, .. } => {
                                if ar@.contains(v) {
                                    let a2 = choose|a2: int| 0 <= a2 < ar@.len() && ar@[a2] == v;
                                }
                            },
                            _ => {},
                        }
                    }
                }
                n += 1;
            }
            b += 1;
        }
        proof {
            assert forall|x: VirtualRegister| #[trigger] fixed_register(*function, x) implies lookup(self.pre_colored@, x) is Some by {
                if !function.parameter_regs@.contains(x) {
                    let (b2, n2) = choose|b2: int, n2: int| 0 <= b2 < function.body@.len() && 0 <= n2 < function.body@[b2].nodes@.len()
                        && #[trigger] fixes(function.body@[b2].nodes@[n2].kind, x);
                } else {
                    let j = choose|j: int| 0 <= j < function.parameter_regs@.len() && function.parameter_regs@[j] == x;
                }
            }
        }
        Ok(())
    }

    /// Fixes the physical register of a virtual register.
    fn precolor(&mut self, v: VirtualRegister, p: PhysicalRegister, function: &IRFunction)
        requires
            old(self).wf(),
            forall|x: VirtualRegister| #[trigger] lookup(old(self).pre_colored@, x) is Some ==> fixed_register(*function, x),
            fixed_register(*function, v),
            fixed_to(*function, v, p),
            pre_ok(old(self).pre_colored@, *function),
            forall|j: int| 0 <= j < function.parameter_regs@.len() ==> lookup(old(self).pre_colored@, #[trigger] function.parameter_regs@[j]) is Some,
        ensures
            final(self).wf(),
            final(self).graph_unchanged(*old(self)),
            forall|x: VirtualRegister| #[trigger] lookup(final(self).pre_colored@, x) is Some ==> fixed_register(*function, x),
            pre_ok(final(self).pre_colored@, *function),
            lookup(final(self).pre_colored@, v) is Some,
            forall|x: VirtualRegister| #[trigger] lookup(old(self).pre_colored@, x) is Some ==> lookup(final(self).pre_colored@, x) is Some,
            forall|j: int| 0 <= j < function.parameter_regs@.len() ==> lookup(final(self).pre_colored@, #[trigger] function.parameter_regs@[j]) is Some,
    {
        let ghost before = self.pre_colored@;
        put(&mut self.pre_colored, v, p);
        proof {
            assert forall|j: int| 0 <= j < function.parameter_regs@.len() implies lookup(self.pre_colored@, #[trigger] function.parameter_regs@[j]) is Some by {
                if function.parameter_regs@[j] != v {
                    assert(lookup(before, function.parameter_regs@[j]) is Some);
                }
            }
        }
    }

    /// Preferred registers: parameters their argument register, returned
    /// values `%rax`, call arguments their argument register.
    fn collect_color_preferred_registers(&mut self, function: &IRFunction)
        requires
            old(self).wf(),
        ensures
            final(self).wf(),
            final(self).graph_unchanged(*old(self)),
            final(self).pre_colored == old(self).pre_colored,
    {
        let mut i: usize = 0;
        while i < function.parameters.len() && i < ARGUMENT_REGISTER_COUNT
            invariant
                self.wf(),
                self.graph_unchanged(*old(self)),
                self.pre_colored == old(self).pre_colored,
                i <= function.parameters@.len(),
            decreases function.parameters.len() - i,
        {
            put(&mut self.color_preferred, function.parameters[i], argument_register(i));
            i += 1;
        }
        let mut b: usize = 0;
        while b < function.body.len()
            invariant
                self.wf(),
                self.graph_unchanged(*old(self)),
                self.pre_colored == old(self).pre_colored,
                b <= function.body@.len(),
            decreases function.body.len() - b,
        {
            let block = &function.body[b];
            let mut n: usize = 0;
            while n < block.nodes.len()
                invariant
                    self.wf(),
                    self.graph_unchanged(*old(self)),
                    self.pre_colored == old(self).pre_colored,
                    n <= block.nodes@.len(),
                decreases block.nodes.len() - n,
            {
                match &block.nodes[n].kind {
                    IRNodeKind::Return { value: Some(value) } => {
                        if let Some(vreg) = value.get_register() {
                            put(&mut self.color_preferred, vreg, PhysicalRegister::RAX);
                        }
                    },
                    IRNodeKind::FunctionCall { arguments, .. } => {
                        let mut a: usize = 0;
                        while a < arguments.len() && a < ARGUMENT_REGISTER_COUNT
                            invariant
                                self.wf(),
                                self.graph_unchanged(*old(self)),
                                self.pre_colored == old(self).pre_colored,
                                a <= arguments@.len(),
                            decreases arguments.len() - a,
                        {
                            if let Some(vreg) = arguments[a].get_register() {
                                put(&mut self.color_preferred, vreg, argument_register(a));
                            }
                            a += 1;
                        }
                    },
                    _ => {},
                }
                n += 1;
            }
            b += 1;
        }
    }

    /// The registers live before some call (the address of a node is its
    /// block's position and its own position).
    fn find_live_across_calls(&mut self, function: &IRFunction, lifetime: &FunctionLifetime)
        requires
            old(self).wf(),
        ensures
            final(self).wf(),
            final(self).graph_unchanged(*old(self)),
            final(self).pre_colored == old(self).pre_colored,
    {
        let mut b: usize = 0;
        while b < function.body.len()
            invariant
                self.wf(),
                self.graph_unchanged(*old(self)),
                self.pre_colored == old(self).pre_colored,
                b <= function.body@.len(),
            decreases function.body.len() - b,
        {
            let block = &function.body[b];
            let mut n: usize = 0;
            while n < block.nodes.len()
                invariant
                    self.wf(),
                    self.graph_unchanged(*old(self)),
                    self.pre_colored == old(self).pre_colored,
                    n <= block.nodes@.len(),
                decreases block.nodes.len() - n,
            {
                if let IRNodeKind::FunctionCall { .. } = &block.nodes[n].kind {
                    let addr = IRAddress::new(b, n);
                    let mut k: usize = 0;
                    while k < lifetime.live_in.len()
                        invariant
                            self.wf(),
                            self.graph_unchanged(*old(self)),
                            self.pre_colored == old(self).pre_colored,
                            k <= lifetime.live_in@.len(),
                        decreases lifetime.live_in.len() - k,
                    {
                        if lifetime.live_in[k].0 == addr {
                            let regs = &lifetime.live_in[k].1;
                            let mut q: usize = 0;
                            while q < regs.len()
                                invariant
                                    self.wf(),
                                    self.graph_unchanged(*old(self)),
                                    self.pre_colored == old(self).pre_colored,
                                    q <= regs@.len(),
                                decreases regs.len() - q,
                            {
                                if !contains_register(&self.live_across_calls, regs[q]) {
                                    self.live_across_calls.push(regs[q]);
                                }
                                q += 1;
                            }
                            break;
                        }
                        k += 1;
                    }
                }
                n += 1;
            }
            b += 1;
        }
    }

    /// Every element's register is a node; every overlap is an edge.
    fn build_graph(&mut self, lifetime: &FunctionLifetime, overlaps: &LifetimeOverlaps)
        requires
            old(self).wf(),
            old(self).adj_list@.len() == 0,
            old(self).alias@.len() == 0,
        ensures
            final(self).wf(),
            final(self).graph_ok(),
            final(self).pre_colored == old(self).pre_colored,
            final(self).select_stack == old(self).select_stack,
            final(self).simplify_worklist == old(self).simplify_worklist,
            final(self).spill_worklist == old(self).spill_worklist,
            final(self).coalesce_worklist == old(self).coalesce_worklist,
            final(self).colored_nodes == old(self).colored_nodes,
            forall|x: VirtualRegister, y: VirtualRegister| #[trigger] overlaps.overlaps@.contains((x, y)) && x != y
                ==> (!final(self).fixed(x) ==> final(self).adj_of(x).contains(y)) && (!final(self).fixed(y) ==> final(self).adj_of(y).contains(x)),
    {
        let mut i: usize = 0;
        while i < lifetime.elements.len()
            invariant
                self.wf(),
                self.pre_colored == old(self).pre_colored,
                self.select_stack == old(self).select_stack,
                self.simplify_worklist == old(self).simplify_worklist,
                self.spill_worklist == old(self).spill_worklist,
                self.coalesce_worklist == old(self).coalesce_worklist,
                self.colored_nodes == old(self).colored_nodes,
                forall|v: VirtualRegister| #[trigger] neighbours_in(self.adj_list@, v).len() == 0,
                forall|v: VirtualRegister| (#[trigger] lookup(self.alias@, v)) is Some ==> lookup(self.alias@, v) == Some(v),
                i <= lifetime.elements@.len(),
            decreases lifetime.elements.len() - i,
        {
            let v = lifetime.elements[i].reg;
            let ghost alias0 = self.alias@;
            let ghost adj0 = self.adj_list@;
            put(&mut self.alias, v, v);
            let empty: Vec<VirtualRegister> = Vec::new();
            put(&mut self.adj_list, v, empty);
            put(&mut self.degree, v, 0);
            proof {
                assert(self.adj_of(v) == empty@);
                assert forall|x: VirtualRegister| (#[trigger] lookup(self.alias@, x)) is Some implies lookup(self.alias@, x) == Some(x) by {
                    if x != v {
                        assert(lookup(alias0, x) == lookup(self.alias@, x));
                    }
                }
                assert forall|x: VirtualRegister| #[trigger] neighbours_in(self.adj_list@, x).len() == 0 by {
                    if x != v {
                        assert(lookup(adj0, x) == lookup(self.adj_list@, x));
                        assert(neighbours_in(adj0, x).len() == 0);
                    }
                }
            }
            i += 1;
        }
        proof {
            assert forall|x: VirtualRegister| !(#[trigger] neighbours_in(self.adj_list@, x)).contains(x) by {
                assert(neighbours_in(self.adj_list@, x).len() == 0);
            }
            assert forall|a: VirtualRegister, b: VirtualRegister| #[trigger] neighbours_in(self.adj_list@, a).contains(b)
                && lookup(self.pre_colored@, a) is None && lookup(self.pre_colored@, b) is None implies neighbours_in(self.adj_list@, b).contains(a) by {
                assert(neighbours_in(self.adj_list@, a).len() == 0);
            }
        }
        let mut k: usize = 0;
        while k < overlaps.overlaps.len()
            invariant
                self.wf(),
                self.graph_ok(),
                self.pre_colored == old(self).pre_colored,
                self.select_stack == old(self).select_stack,
                self.simplify_worklist == old(self).simplify_worklist,
                self.spill_worklist == old(self).spill_worklist,
                self.coalesce_worklist == old(self).coalesce_worklist,
                self.colored_nodes == old(self).colored_nodes,
                k <= overlaps.overlaps@.len(),
                forall|j: int| 0 <= j < k && (#[trigger] overlaps.overlaps@[j]).0 != overlaps.overlaps@[j].1
                    ==> (!self.fixed(overlaps.overlaps@[j].0) ==> self.adj_of(overlaps.overlaps@[j].0).contains(overlaps.overlaps@[j].1))
                    && (!self.fixed(overlaps.overlaps@[j].1) ==> self.adj_of(overlaps.overlaps@[j].1).contains(overlaps.overlaps@[j].0)),
            decreases overlaps.overlaps.len() - k,
        {
            let (r1, r2) = overlaps.overlaps[k];
            let ghost before = *self;
            self.add_edge(r1, r2);
            proof {
                assert forall|j: int| 0 <= j < k + 1 && (#[trigger] overlaps.overlaps@[j]).0 != overlaps.overlaps@[j].1
                    implies (!self.fixed(overlaps.overlaps@[j].0) ==> self.adj_of(overlaps.overlaps@[j].0).contains(overlaps.overlaps@[j].1))
                    && (!self.fixed(overlaps.overlaps@[j].1) ==> self.adj_of(overlaps.overlaps@[j].1).contains(overlaps.overlaps@[j].0)) by {
                    if j < k {
                        let (x, y) = overlaps.overlaps@[j];
                        if !self.fixed(x) {
                            assert(before.adj_of(x).contains(y));
                        }
                        if !self.fixed(y) {
                            assert(before.adj_of(y).contains(x));
                        }
                    }
                }
            }
            k += 1;
        }
        proof {
            assert forall|x: VirtualRegister, y: VirtualRegister| #[trigger] overlaps.overlaps@.contains((x, y)) && x != y
                implies (!self.fixed(x) ==> self.adj_of(x).contains(y)) && (!self.fixed(y) ==> self.adj_of(y).contains(x)) by {
                let j = choose|j: int| 0 <= j < overlaps.overlaps@.len() && overlaps.overlaps@[j] == (x, y);
                assert(overlaps.overlaps@[j].0 != overlaps.overlaps@[j].1);
            }
        }
    }

    fn is_precolored(&self, v: VirtualRegister) -> (r: bool)
        ensures
            r == self.fixed(v),
    {
        find_key(&self.pre_colored, v).is_some()
    }

    fn degree_of(&self, v: VirtualRegister) -> (r: usize)
        ensures
            r == match lookup(self.degree@, v) {
                Some(d) => d,
                None => 0,
            },
    {
        match find_key(&self.degree, v) {
            Some(i) => self.degree[i].1,
            None => 0,
        }
    }

    /// Adds `b` to the neighbours of `a`, counting one more edge for `a`.
    fn link(&mut self, a: VirtualRegister, b: VirtualRegister)
        requires
            old(self).wf(),
        ensures
            final(self).wf(),
            final(self).pre_colored == old(self).pre_colored,
            final(self).alias == old(self).alias,
            final(self).select_stack == old(self).select_stack,
            final(self).simplify_worklist == old(self).simplify_worklist,
            final(self).spill_worklist == old(self).spill_worklist,
            final(self).coalesce_worklist == old(self).coalesce_worklist,
            final(self).colored_nodes == old(self).colored_nodes,
            forall|y: VirtualRegister| #[trigger] final(self).adj_of(a).contains(y) <==> old(self).adj_of(a).contains(y) || y == b,
            forall|x: VirtualRegister| x != a ==> #[trigger] final(self).adj_of(x) == old(self).adj_of(x),
    {
        let mut neighbours = match find_key(&self.adj_list, a) {
            Some(i) => crate::lifetime_analyzer::domain::copy_registers(&self.adj_list[i].1),
            None => Vec::new(),
        };
        let ghost old_neighbours = neighbours@;
        proof {
            assert(old_neighbours == old(self).adj_of(a));
        }
        if !contains_register(&neighbours, b) {
            neighbours.push(b);
        }
        proof {
            assert forall|y: VirtualRegister| #[trigger] neighbours@.contains(y) <==> old_neighbours.contains(y) || y == b by {
                crate::control_flow::graph::lemma_push_contains(old_neighbours, b, y);
            }
        }
        let ghost adj0 = self.adj_list@;
        put(&mut self.adj_list, a, neighbours);
        proof {
            assert forall|x: VirtualRegister| x != a implies #[trigger] self.adj_of(x) == old(self).adj_of(x) by {
                assert(lookup(self.adj_list@, x) == lookup(adj0, x));
            }
        }
        let d = self.degree_of(a);
        put(&mut self.degree, a, d.saturating_add(1));
    }

    /// Adds the edge between two different registers on the side of each
    /// that is not fixed.
    fn add_edge(&mut self, r1: VirtualRegister, r2: VirtualRegister)
        requires
            old(self).wf(),
            old(self).graph_ok(),
        ensures
            final(self).wf(),
            final(self).graph_ok(),
            final(self).pre_colored == old(self).pre_colored,
            final(self).select_stack == old(self).select_stack,
            final(self).simplify_worklist == old(self).simplify_worklist,
            final(self).spill_worklist == old(self).spill_worklist,
            final(self).coalesce_worklist == old(self).coalesce_worklist,
            final(self).colored_nodes == old(self).colored_nodes,
            forall|x: VirtualRegister, y: VirtualRegister| #[trigger] old(self).adj_of(x).contains(y) ==> final(self).adj_of(x).contains(y),
            r1 != r2 ==> (!final(self).fixed(r1) ==> final(self).adj_of(r1).contains(r2))
                && (!final(self).fixed(r2) ==> final(self).adj_of(r2).contains(r1)),
    {
        let ghost s0 = *self;
        if !self.is_precolored(r1) && r1 != r2 {
            self.link(r1, r2);
        }
        let ghost s1 = *self;
        if !self.is_precolored(r2) && r1 != r2 {
            self.link(r2, r1);
        }
        proof {
            assert forall|x: VirtualRegister, y: VirtualRegister| #[trigger] s0.adj_of(x).contains(y) implies self.adj_of(x).contains(y) by {
                assert(s1.adj_of(x).contains(y));
            }
            assert forall|v: VirtualRegister| !(#[trigger] neighbours_in(self.adj_list@, v)).contains(v) by {
                assert(!s0.adj_of(v).contains(v));
                assert(!s1.adj_of(v).contains(v));
                assert(neighbours_in(self.adj_list@, v) == self.adj_of(v));
            }
            assert forall|a: VirtualRegister, b: VirtualRegister| #[trigger] neighbours_in(self.adj_list@, a).contains(b)
                && lookup(self.pre_colored@, a) is None && lookup(self.pre_colored@, b) is None implies neighbours_in(self.adj_list@, b).contains(a) by {
                assert(neighbours_in(self.adj_list@, a) == self.adj_of(a));
                assert(neighbours_in(self.adj_list@, b) == self.adj_of(b));
                if s0.adj_of(a).contains(b) {
                    assert(s0.adj_of(b).contains(a));
                    assert(s1.adj_of(b).contains(a));
                } else if s1.adj_of(a).contains(b) {
                    assert(a == r1 && b == r2);
                } else {
                    assert(a == r2 && b == r1);
                    assert(s1.adj_of(r1).contains(r2));
                }
            }
        }
    }

    /// Registers that are not fixed start on the simplify list when they
    /// have fewer edges than there are colours, else on the spill list.
    fn make_worklist(&mut self)
        requires
            old(self).wf(),
            old(self).select_stack@.len() == 0,
            old(self).simplify_worklist@.len() == 0,
            old(self).spill_worklist@.len() == 0,
            old(self).coalesce_worklist@.len() == 0,
        ensures
            final(self).wf(),
            final(self).lists_ok(),
            final(self).pre_colored == old(self).pre_colored,
            final(self).adj_list == old(self).adj_list,
            final(self).alias == old(self).alias,
            final(self).colored_nodes == old(self).colored_nodes,
    {
        let mut i: usize = 0;
        while i < self.adj_list.len()
            invariant
                self.wf(),
                self.pre_colored == old(self).pre_colored,
                self.adj_list == old(self).adj_list,
                self.alias == old(self).alias,
                self.colored_nodes == old(self).colored_nodes,
                self.select_stack@.len() == 0,
                self.coalesce_worklist@.len() == 0,
                self.simplify_worklist@.no_duplicates(),
                i <= self.adj_list@.len(),
                forall|x: VirtualRegister| #[trigger] self.simplify_worklist@.contains(x) ==> !self.spill_worklist@.contains(x),
                forall|x: VirtualRegister| #[trigger] self.simplify_worklist@.contains(x)
                    ==> 0 <= key_index(self.adj_list@, x) < i && self.in_graph(x) && !self.fixed(x),
                forall|x: VirtualRegister| #[trigger] self.spill_worklist@.contains(x)
                    ==> 0 <= key_index(self.adj_list@, x) < i && self.in_graph(x) && !self.fixed(x),
            decreases self.adj_list.len() - i,
        {
            let v = self.adj_list[i].0;
            proof {
                crate::register_allocator::assoc::lemma_key_index(self.adj_list@, v);
                assert(key_index(self.adj_list@, v) == i) by {
                    let ki = key_index(self.adj_list@, v);
                    assert(self.adj_list@[ki].0 == self.adj_list@[i as int].0);
                }
                lemma_graph_nodes(self.adj_list@, v, v);
            }
            if !self.is_precolored(v) {
                let d = self.degree_of(v);
                let ghost simp0 = self.simplify_worklist@;
                let ghost spill0 = self.spill_worklist@;
                if d >= self.physical_registers.len() {
                    self.spill_worklist.push(v);
                } else {
                    self.simplify_worklist.push(v);
                }
                proof {
                    assert forall|x: VirtualRegister| #[trigger] self.simplify_worklist@.contains(x)
                        implies 0 <= key_index(self.adj_list@, x) < i + 1 && self.in_graph(x) && !self.fixed(x) by {
                        crate::control_flow::graph::lemma_push_contains(simp0, v, x);
                    }
                    assert forall|x: VirtualRegister| #[trigger] self.spill_worklist@.contains(x)
                        implies 0 <= key_index(self.adj_list@, x) < i + 1 && self.in_graph(x) && !self.fixed(x) by {
                        crate::control_flow::graph::lemma_push_contains(spill0, v, x);
                    }
                    assert forall|x: VirtualRegister| #[trigger] self.simplify_worklist@.contains(x) implies !self.spill_worklist@.contains(x) by {
                        crate::control_flow::graph::lemma_push_contains(simp0, v, x);
                        crate::control_flow::graph::lemma_push_contains(spill0, v, x);
                    }
                    if simp0.contains(v) {
                        assert(key_index(self.adj_list@, v) < i);
                    }
                    if spill0.contains(v) {
                        assert(key_index(self.adj_list@, v) < i);
                    }
                }
            }
            i += 1;
        }
        proof {
            assert forall|x: VirtualRegister| #[trigger] self.select_stack@.contains(x) implies self.in_graph(x) && !self.fixed(x) by {
                assert(self.select_stack@.len() == 0);
            }
            assert forall|x: VirtualRegister| #[trigger] self.simplify_worklist@.contains(x)
                implies !self.select_stack@.contains(x) && !self.spill_worklist@.contains(x) && self.in_graph(x) && !self.fixed(x) by {
                assert(self.select_stack@.len() == 0);
            }
            assert forall|x: VirtualRegister| #[trigger] self.spill_worklist@.contains(x)
                implies !self.select_stack@.contains(x) && self.in_graph(x) && !self.fixed(x) by {
                assert(self.select_stack@.len() == 0);
            }
            assert(self.select_stack@.no_duplicates());
        }
    }

    /// The neighbours of a register that are not on the select stack.
    fn get_adjacent(&self, v: VirtualRegister) -> (r: Vec<VirtualRegister>)
        ensures
            forall|x: VirtualRegister| #[trigger] r@.contains(x) <==> self.adj_of(v).contains(x) && !self.select_stack@.contains(x),
    {
        let mut out: Vec<VirtualRegister> = Vec::new();
        if let Some(i) = find_key(&self.adj_list, v) {
            let list = &self.adj_list[i].1;
            proof {
                assert(list@ == self.adj_of(v));
            }
            let mut k: usize = 0;
            while k < list.len()
                invariant
                    k <= list@.len(),
                    list@ == self.adj_of(v),
                    forall|x: VirtualRegister| #[trigger] out@.contains(x) <==> list@.subrange(0, k as int).contains(x) && !self.select_stack@.contains(x),
                decreases list.len() - k,
            {
                let ghost before = out@;
                let x = list[k];
                if !contains_register(&self.select_stack, x) {
                    out.push(x);
                }
                proof {
                    assert(list@.subrange(0, k + 1) =~= list@.subrange(0, k as int).push(x));
                    assert forall|y: VirtualRegister| #[trigger] out@.contains(y) <==> list@.subrange(0, k + 1).contains(y) && !self.select_stack@.contains(y) by {
                        crate::control_flow::graph::lemma_push_contains(before, x, y);
                        crate::control_flow::graph::lemma_push_contains(list@.subrange(0, k as int), x, y);
                    }
                }
                k += 1;
            }
            proof {
                assert(list@.subrange(0, k as int) =~= list@);
            }
        }
        out
    }

    /// One edge of `v` is gone; when it now has fewer edges than colours and
    /// is not fixed, it moves from the spill list to the simplify list.
    fn decrement_degree(&mut self, v: VirtualRegister)
        requires
            old(self).wf(),
            old(self).lists_ok(),
            !old(self).select_stack@.contains(v),
            old(self).in_graph(v),
        ensures
            final(self).wf(),
            final(self).lists_ok(),
            final(self).pre_colored == old(self).pre_colored,
            final(self).adj_list == old(self).adj_list,
            final(self).alias == old(self).alias,
            final(self).select_stack == old(self).select_stack,
            final(self).coalesce_worklist == old(self).coalesce_worklist,
            final(self).colored_nodes == old(self).colored_nodes,
    {
        let d = self.degree_of(v);
        let d = if d == 0 { 0 } else { d - 1 };
        put(&mut self.degree, v, d);
        if d < self.physical_registers.len() && !self.is_precolored(v) {
            let ghost simp0 = self.simplify_worklist@;
            let ghost spill0 = self.spill_worklist@;
            remove_all(&mut self.spill_worklist, v);
            if !contains_register(&self.simplify_worklist, v) {
                self.simplify_worklist.push(v);
            }
            proof {
                assert forall|x: VirtualRegister| #[trigger] self.simplify_worklist@.contains(x)
                    implies !self.select_stack@.contains(x) && !self.spill_worklist@.contains(x) && self.in_graph(x) && !self.fixed(x) by {
                    crate::control_flow::graph::lemma_push_contains(simp0, v, x);
                }
                assert forall|x: VirtualRegister| #[trigger] self.spill_worklist@.contains(x)
                    implies !self.select_stack@.contains(x) && self.in_graph(x) && !self.fixed(x) by {
                    assert(spill0.contains(x));
                }
            }
        }
    }

    /// Moves a register with few edges to the select stack.
    fn simplify(&mut self)
        requires
            old(self).wf(),
            old(self).lists_ok(),
            old(self).simplify_worklist@.len() > 0,
        ensures
            final(self).wf(),
            final(self).lists_ok(),
            final(self).pre_colored == old(self).pre_colored,
            final(self).adj_list == old(self).adj_list,
            final(self).alias == old(self).alias,
            final(self).coalesce_worklist == old(self).coalesce_worklist,
            final(self).colored_nodes == old(self).colored_nodes,
            final(self).remaining() < old(self).remaining(),
    {
        let ghost simp0 = self.simplify_worklist@;
        let v = match self.simplify_worklist.pop() {
            Some(v) => v,
            None => {
                return;
            },
        };
        proof {
            assert(simp0.contains(v)) by {
                assert(simp0[simp0.len() - 1] == v);
            }
            assert(simp0 == self.simplify_worklist@.push(v));
            assert forall|x: VirtualRegister| #[trigger] self.simplify_worklist@.contains(x) implies simp0.contains(x) && x != v by {
                let i = choose|i: int| 0 <= i < self.simplify_worklist@.len() && self.simplify_worklist@[i] == x;
                assert(simp0[i] == x);
                if x == v {
                    assert(simp0[simp0.len() - 1] == v);
                }
            }
        }
        let ghost sel0 = self.select_stack@;
        self.select_stack.push(v);
        proof {
            lemma_count_outside(graph_nodes(self.adj_list@), sel0, v);
            assert forall|x: VirtualRegister| #[trigger] self.select_stack@.contains(x) <==> sel0.contains(x) || x == v by {
                crate::control_flow::graph::lemma_push_contains(sel0, v, x);
            }
            assert(self.select_stack@.no_duplicates()) by {
                assert forall|i: int, j: int| 0 <= i < j < self.select_stack@.len() implies self.select_stack@[i] != self.select_stack@[j] by {
                    if j == self.select_stack@.len() - 1 {
                        assert(sel0.contains(self.select_stack@[i]));
                    }
                }
            }
            assert(self.lists_ok());
        }
        let ghost after_push = *self;
        let neighbours = self.get_adjacent(v);
        let mut k: usize = 0;
        while k < neighbours.len()
            invariant
                self.wf(),
                self.lists_ok(),
                self.pre_colored == old(self).pre_colored,
                self.adj_list == old(self).adj_list,
                self.alias == old(self).alias,
                self.coalesce_worklist == old(self).coalesce_worklist,
                self.colored_nodes == old(self).colored_nodes,
                self.select_stack == after_push.select_stack,
                self.adj_list == after_push.adj_list,
                forall|x: VirtualRegister| #[trigger] neighbours@.contains(x) <==> after_push.adj_of(v).contains(x) && !after_push.select_stack@.contains(x),
                k <= neighbours@.len(),
            decreases neighbours.len() - k,
        {
            let n = neighbours[k];
            proof {
                assert(neighbours@.contains(n));
                crate::register_allocator::assoc::lemma_key_index(self.adj_list@, v);
                lemma_graph_nodes(self.adj_list@, v, n);
            }
            self.decrement_degree(n);
            k += 1;
        }
    }

    /// Candidates for merging are given up to the spill list.
    fn coalesce(&mut self)
        requires
            old(self).wf(),
            old(self).lists_ok(),
        ensures
            final(self).wf(),
            final(self).lists_ok(),
            final(self).pre_colored == old(self).pre_colored,
            final(self).adj_list == old(self).adj_list,
            final(self).alias == old(self).alias,
            final(self).select_stack == old(self).select_stack,
            final(self).spill_worklist == old(self).spill_worklist,
            final(self).colored_nodes == old(self).colored_nodes,
            final(self).coalesce_worklist@.len() == 0,
    {
        let mut candidates: Vec<(VirtualRegister, VirtualRegister)> = Vec::new();
        std::mem::swap(&mut candidates, &mut self.coalesce_worklist);
        proof {
            assert(self.lists_ok());
        }
        let mut k: usize = 0;
        while k < candidates.len()
            invariant
                self.wf(),
                self.pre_colored == old(self).pre_colored,
                self.coalesce_worklist@.len() == 0,
                candidates@.len() == 0,
                self.spill_worklist == old(self).spill_worklist,
                self.simplify_worklist == old(self).simplify_worklist,
                self.select_stack == old(self).select_stack,
                self.adj_list == old(self).adj_list,
                self.alias == old(self).alias,
                self.colored_nodes == old(self).colored_nodes,
                self.lists_ok(),
                k <= candidates@.len(),
            decreases candidates.len() - k,
        {
            self.spill_worklist.push(candidates[k].0);
            self.spill_worklist.push(candidates[k].1);
            k += 1;
        }
    }

    /// Moves the cheapest register to spill (the first among equals; a
    /// register without a cost counts as the most expensive) from the spill
    /// list to the simplify list.
    fn select_spill(&mut self)
        requires
            old(self).wf(),
            old(self).lists_ok(),
            old(self).spill_worklist@.len() > 0,
        ensures
            final(self).wf(),
            final(self).lists_ok(),
            final(self).pre_colored == old(self).pre_colored,
            final(self).adj_list == old(self).adj_list,
            final(self).alias == old(self).alias,
            final(self).select_stack == old(self).select_stack,
            final(self).colored_nodes == old(self).colored_nodes,
            final(self).spill_worklist@.len() < old(self).spill_worklist@.len(),
            final(self).coalesce_worklist == old(self).coalesce_worklist,
    {
        let mut best = self.spill_worklist[0];
        let mut best_cost = self.cost_of(best);
        let mut k: usize = 1;
        while k < self.spill_worklist.len()
            invariant
                1 <= k <= self.spill_worklist@.len(),
                self.spill_worklist@.contains(best),
            decreases self.spill_worklist.len() - k,
        {
            let c = self.cost_of(self.spill_worklist[k]);
            if c < best_cost {
                best = self.spill_worklist[k];
                best_cost = c;
            }
            k += 1;
        }
        let ghost simp0 = self.simplify_worklist@;
        let ghost spill0 = self.spill_worklist@;
        remove_all(&mut self.spill_worklist, best);
        self.simplify_worklist.push(best);
        proof {
            assert(!simp0.contains(best));
            assert forall|x: VirtualRegister| #[trigger] self.simplify_worklist@.contains(x)
                implies !self.select_stack@.contains(x) && !self.spill_worklist@.contains(x) && self.in_graph(x) && !self.fixed(x) by {
                crate::control_flow::graph::lemma_push_contains(simp0, best, x);
            }
            assert forall|x: VirtualRegister| #[trigger] self.spill_worklist@.contains(x)
                implies !self.select_stack@.contains(x) && self.in_graph(x) && !self.fixed(x) by {
                assert(spill0.contains(x));
            }
            assert(self.simplify_worklist@.no_duplicates()) by {
                assert forall|i: int, j: int| 0 <= i < j < self.simplify_worklist@.len() implies self.simplify_worklist@[i] != self.simplify_worklist@[j] by {
                    if j == self.simplify_worklist@.len() - 1 {
                        assert(simp0.contains(self.simplify_worklist@[i]));
                    }
                }
            }
        }
    }

    fn cost_of(&self, v: VirtualRegister) -> (r: u64) {
        match find_key(&self.spill_costs, v) {
            Some(i) => self.spill_costs[i].1,
            None => u64::MAX,
        }
    }

    /// The register a register was merged into: itself.
    fn get_alias(&self, v: VirtualRegister) -> (r: VirtualRegister)
        requires
            self.graph_ok(),
        ensures
            r == v,
    {
        match find_key(&self.alias, v) {
            Some(i) => {
                proof {
                    assert(lookup(self.alias@, v) == Some(self.alias@[i as int].1));
                }
                self.alias[i].1
            },
            None => v,
        }
    }

    /// Gives each register on the select stack, last pushed first, a colour
    /// that no coloured neighbour has: its preferred register when that is
    /// free (and callee-saved when the register lives across a call), else
    /// the first free callee-saved register for registers live across calls
    /// or the first free caller-saved one for the others, else the first
    /// free one. A register with no free colour is spilled.
    fn assign_colors(&mut self)
        requires
            old(self).wf(),
            old(self).graph_ok(),
            old(self).lists_ok(),
            old(self).colored_nodes@.len() == 0,
        ensures
            final(self).wf(),
            final(self).colouring_ok(),
            final(self).pre_colored == old(self).pre_colored,
            final(self).adj_list == old(self).adj_list,
            final(self).alias == old(self).alias,
            forall|v: VirtualRegister| #[trigger] lookup(final(self).pre_colored@, v) is Some ==> lookup(final(self).colored_nodes@, v)
                == lookup(final(self).pre_colored@, v),
    {
        let callee = callee_save_registers();
        let mut i: usize = 0;
        while i < self.pre_colored.len()
            invariant
                self.wf(),
                self.pre_colored == old(self).pre_colored,
                self.adj_list == old(self).adj_list,
                self.alias == old(self).alias,
                self.select_stack == old(self).select_stack,
                self.graph_ok(),
                self.lists_ok(),
                i <= self.pre_colored@.len(),
                forall|j: int| 0 <= j < i ==> lookup(self.colored_nodes@, #[trigger] self.pre_colored@[j].0) == Some(self.pre_colored@[j].1),
                forall|x: VirtualRegister| #[trigger] lookup(self.colored_nodes@, x) is Some ==> self.fixed(x),
            decreases self.pre_colored.len() - i,
        {
            let (v, p) = self.pre_colored[i];
            let ghost before = self.colored_nodes@;
            proof {
                crate::register_allocator::assoc::lemma_key_index(self.pre_colored@, v);
                assert(self.fixed(v)) by {
                    assert(key_index(self.pre_colored@, v) >= 0) by {
                        if key_index(self.pre_colored@, v) == -1 {
                            assert(self.pre_colored@[i as int].0 == v);
                        }
                    }
                }
            }
            put(&mut self.colored_nodes, v, p);
            proof {
                assert forall|j: int| 0 <= j < i + 1 implies lookup(self.colored_nodes@, #[trigger] self.pre_colored@[j].0) == Some(self.pre_colored@[j].1) by {
                    if self.pre_colored@[j].0 != v {
                        assert(lookup(before, self.pre_colored@[j].0) == Some(self.pre_colored@[j].1));
                    } else {
                        assert(j == i);
                    }
                }
                assert forall|x: VirtualRegister| #[trigger] lookup(self.colored_nodes@, x) is Some implies self.fixed(x) by {
                    if x != v {
                        assert(lookup(before, x) is Some);
                    }
                }
            }
            i += 1;
        }
        proof {
            assert forall|v: VirtualRegister| #[trigger] lookup(self.pre_colored@, v) is Some implies lookup(self.colored_nodes@, v)
                == lookup(self.pre_colored@, v) by {
                crate::register_allocator::assoc::lemma_key_index(self.pre_colored@, v);
                let j = key_index(self.pre_colored@, v);
                assert(self.pre_colored@[j].0 == v);
            }
            assert forall|x: VirtualRegister| #[trigger] lookup(self.colored_nodes@, x) is Some implies !self.select_stack@.contains(x) by {
                assert(self.fixed(x));
            }
            assert forall|a: VirtualRegister, b: VirtualRegister|
                #[trigger] neighbours_in(self.adj_list@, a).contains(b) && lookup(self.pre_colored@, a) is None && lookup(self.colored_nodes@, a) is Some
                    && lookup(self.colored_nodes@, b) is Some implies lookup(self.colored_nodes@, a) != lookup(self.colored_nodes@, b) by {
                assert(self.fixed(a));
            }
        }
        while self.select_stack.len() > 0
            invariant
                self.wf(),
                self.graph_ok(),
                self.pre_colored == old(self).pre_colored,
                self.adj_list == old(self).adj_list,
                self.alias == old(self).alias,
                callee@ == crate::physical_register::callee_save_list(),
                forall|v: VirtualRegister| #[trigger] lookup(self.pre_colored@, v) is Some ==> lookup(self.colored_nodes@, v)
                    == lookup(self.pre_colored@, v),
                self.select_stack@.no_duplicates(),
                forall|x: VirtualRegister| #[trigger] self.select_stack@.contains(x) ==> !self.fixed(x),
                forall|x: VirtualRegister| #[trigger] lookup(self.colored_nodes@, x) is Some ==> !self.select_stack@.contains(x),
                self.colouring_ok(),
            decreases self.select_stack.len(),
        {
            let ghost stack0 = self.select_stack@;
            let v = match self.select_stack.pop() {
                Some(v) => v,
                None => {
                    break;
                },
            };
            proof {
                assert(stack0 == self.select_stack@.push(v));
                assert(stack0.contains(v)) by {
                    assert(stack0[stack0.len() - 1] == v);
                }
                assert(!self.select_stack@.contains(v)) by {
                    if self.select_stack@.contains(v) {
                        let i = choose|i: int| 0 <= i < self.select_stack@.len() && self.select_stack@[i] == v;
                        assert(stack0[i] == stack0[stack0.len() - 1]);
                    }
                }
                assert forall|x: VirtualRegister| #[trigger] self.select_stack@.contains(x) implies stack0.contains(x) by {
                    let i = choose|i: int| 0 <= i < self.select_stack@.len() && self.select_stack@[i] == x;
                    assert(stack0[i] == x);
                }
                assert(self.select_stack@.no_duplicates()) by {
                    assert forall|i: int, j: int| 0 <= i < j < self.select_stack@.len() implies self.select_stack@[i] != self.select_stack@[j] by {
                        assert(stack0[i] != stack0[j]);
                    }
                }
            }
            let mut available: Vec<PhysicalRegister> = Vec::new();
            let neighbours = self.get_adjacent(v);
            let mut c: usize = 0;
            while c < self.physical_registers.len()
                invariant
                    c <= self.physical_registers@.len(),
                    self.graph_ok(),
                    forall|p: PhysicalRegister| #[trigger] available@.contains(p) ==> forall|k: int| 0 <= k < neighbours@.len()
                        ==> lookup(self.colored_nodes@, #[trigger] neighbours@[k]) != Some(p),
                decreases self.physical_registers.len() - c,
            {
                let colour = self.physical_registers[c];
                let mut taken = false;
                let mut k: usize = 0;
                while k < neighbours.len()
                    invariant
                        k <= neighbours@.len(),
                        self.graph_ok(),
                        !taken ==> forall|q: int| 0 <= q < k ==> lookup(self.colored_nodes@, #[trigger] neighbours@[q]) != Some(colour),
                    decreases neighbours.len() - k,
                {
                    let alias = self.get_alias(neighbours[k]);
                    if let Some(j) = find_key(&self.colored_nodes, alias) {
                        if self.colored_nodes[j].1 == colour {
                            taken = true;
                        }
                    }
                    k += 1;
                }
                let ghost avail0 = available@;
                if !taken {
                    available.push(colour);
                }
                proof {
                    assert forall|p: PhysicalRegister| #[trigger] available@.contains(p) implies forall|k: int| 0 <= k < neighbours@.len()
                        ==> lookup(self.colored_nodes@, #[trigger] neighbours@[k]) != Some(p) by {
                        crate::control_flow::graph::lemma_push_contains(avail0, colour, p);
                    }
                }
                c += 1;
            }
            let prefer_callee_save = contains_register(&self.live_across_calls, v);
            let mut chosen: Option<PhysicalRegister> = None;
            if let Some(j) = find_key(&self.color_preferred, v) {
                let preferred = self.color_preferred[j].1;
                if contains_physical(&available, preferred) && (!prefer_callee_save || contains_physical(&callee, preferred)) {
                    chosen = Some(preferred);
                }
            }
            if chosen.is_none() {
                // The first free register of the favoured kind, else the first free one.
                let mut k: usize = 0;
                while k < available.len()
                    invariant_except_break
                        k <= available@.len(),
                        chosen is None,
                    ensures
                        chosen matches Some(c) ==> available@.contains(c),
                    decreases available.len() - k,
                {
                    let is_callee = contains_physical(&callee, available[k]);
                    if is_callee == prefer_callee_save {
                        chosen = Some(available[k]);
                        proof {
                            assert(available@.contains(available@[k as int]));
                        }
                        break;
                    }
                    k += 1;
                }
                if chosen.is_none() && available.len() > 0 {
                    chosen = Some(available[0]);
                    proof {
                        assert(available@.contains(available@[0]));
                    }
                }
            }
            match chosen {
                Some(colour) => {
                    proof {
                        assert(available@.contains(colour));
                    }
                    let ghost before = self.colored_nodes@;
                    put(&mut self.colored_nodes, v, colour);
                    proof {
                        assert forall|x: VirtualRegister| #[trigger] lookup(self.pre_colored@, x) is Some implies lookup(self.colored_nodes@, x)
                            == lookup(self.pre_colored@, x) by {
                            if x != v {
                                assert(lookup(before, x) == lookup(self.pre_colored@, x));
                            }
                        }
                        assert forall|x: VirtualRegister| #[trigger] lookup(self.colored_nodes@, x) is Some implies !self.select_stack@.contains(x) by {
                            if x != v {
                                assert(lookup(before, x) is Some);
                            }
                        }
                        assert forall|a: VirtualRegister, b: VirtualRegister|
                            #[trigger] neighbours_in(self.adj_list@, a).contains(b) && lookup(self.pre_colored@, a) is None && lookup(self.colored_nodes@, a) is Some
                                && lookup(self.colored_nodes@, b) is Some implies lookup(self.colored_nodes@, a) != lookup(self.colored_nodes@, b) by {
                            assert(self.adj_of(a) == neighbours_in(self.adj_list@, a));
                            assert(self.adj_of(b) == neighbours_in(self.adj_list@, b));
                            if a == v {
                                assert(b != v);
                                assert(lookup(before, b) is Some);
                                assert(!self.select_stack@.contains(b));
                                assert(neighbours@.contains(b));
                                let k = choose|k: int| 0 <= k < neighbours@.len() && neighbours@[k] == b;
                                assert(lookup(before, neighbours@[k]) != Some(colour));
                            } else if b == v {
                                assert(lookup(before, a) is Some);
                                assert(!stack0.contains(a) || a == v);
                                assert(!self.fixed(v));
                                assert(self.adj_of(v).contains(a));
                                assert(!self.select_stack@.contains(a));
                                assert(neighbours@.contains(a));
                                let k = choose|k: int| 0 <= k < neighbours@.len() && neighbours@[k] == a;
                                assert(lookup(before, neighbours@[k]) != Some(colour));
                            } else {
                                assert(lookup(before, a) == lookup(self.colored_nodes@, a));
                                assert(lookup(before, b) == lookup(self.colored_nodes@, b));
                            }
                        }
                    }
                },
                None => {
                    if !contains_register(&self.spilled_nodes, v) {
                        self.spilled_nodes.push(v);
                    }
                },
            }
        }
    }

    /// Colours the graph: while some list is not empty, simplify, give up
    /// merge candidates, or select a spill candidate; then assign colours.
    /// On success, every register of the graph with a colour, mapped to it,
    /// where a register that is not fixed has a colour different from each
    /// of its neighbours; otherwise the registers that found no colour.
    fn run(self) -> (r: Result<Vec<(VirtualRegister, PhysicalRegister)>, Vec<VirtualRegister>>)
        requires
            self.wf(),
            self.graph_ok(),
            self.lists_ok(),
            self.colored_nodes@.len() == 0,
        ensures
            r matches Ok(m) ==> keys_unique(m@),
            r matches Ok(m) ==> colouring_ok_in(self.adj_list@, self.pre_colored@, m@),
            r matches Ok(m) ==> forall|x: VirtualRegister| #[trigger] lookup(m@, x) is Some && lookup(self.pre_colored@, x) is Some
                ==> lookup(m@, x) == lookup(self.pre_colored@, x),
    {
        let ghost adj0 = self.adj_list@;
        let ghost pre0 = self.pre_colored@;
        let mut this = self;
        while this.simplify_worklist.len() > 0 || this.coalesce_worklist.len() > 0 || this.spill_worklist.len() > 0
            invariant
                this.wf(),
                this.graph_ok(),
                this.lists_ok(),
                this.colored_nodes@.len() == 0,
                this.adj_list@ == adj0,
                this.pre_colored@ == pre0,
            decreases this.remaining(), this.spill_worklist@.len(),
        {
            if this.simplify_worklist.len() > 0 {
                this.simplify();
            } else if this.coalesce_worklist.len() > 0 {
                this.coalesce();
            } else {
                this.select_spill();
            }
        }
        this.assign_colors();
        if this.spilled_nodes.len() > 0 {
            return Err(this.spilled_nodes);
        }
        let mut final_map: Vec<(VirtualRegister, PhysicalRegister)> = Vec::new();
        let mut i: usize = 0;
        while i < this.alias.len()
            invariant
                this.wf(),
                this.graph_ok(),
                this.colouring_ok(),
                this.adj_list@ == adj0,
                this.pre_colored@ == pre0,
                i <= this.alias@.len(),
                keys_unique(final_map@),
                forall|x: VirtualRegister| (#[trigger] lookup(final_map@, x)) is Some ==> lookup(final_map@, x) == lookup(this.colored_nodes@, x),
            decreases this.alias.len() - i,
        {
            let v = this.alias[i].0;
            let root = this.get_alias(v);
            if let Some(j) = find_key(&this.colored_nodes, root) {
                let ghost before = final_map@;
                put(&mut final_map, v, this.colored_nodes[j].1);
                proof {
                    assert(lookup(this.colored_nodes@, v) == Some(this.colored_nodes@[j as int].1));
                    assert forall|x: VirtualRegister| (#[trigger] lookup(final_map@, x)) is Some implies lookup(final_map@, x) == lookup(this.colored_nodes@, x) by {
                        if x != v {
                            assert(lookup(final_map@, x) == lookup(before, x));
                        }
                    }
                }
            }
            i += 1;
        }
        proof {
            assert forall|a: VirtualRegister, b: VirtualRegister|
                #[trigger] neighbours_in(adj0, a).contains(b) && lookup(pre0, a) is None && lookup(final_map@, a) is Some
                    && lookup(final_map@, b) is Some implies lookup(final_map@, a) != lookup(final_map@, b) by {
                assert(lookup(final_map@, a) == lookup(this.colored_nodes@, a));
                assert(lookup(final_map@, b) == lookup(this.colored_nodes@, b));
            }
        }
        Ok(final_map)
    }
}

/// Removes every occurrence of a register.
fn remove_all(v: &mut Vec<VirtualRegister>, r: VirtualRegister)
    ensures
        !final(v)@.contains(r),
        forall|x: VirtualRegister| x != r ==> (#[trigger] final(v)@.contains(x) <==> old(v)@.contains(x)),
        final(v)@.len() <= old(v)@.len(),
        old(v)@.contains(r) ==> final(v)@.len() < old(v)@.len(),
{
    let mut out: Vec<VirtualRegister> = Vec::new();
    let mut i: usize = 0;
    while i < v.len()
        invariant
            i <= v@.len(),
            v@ == old(v)@,
            !out@.contains(r),
            forall|x: VirtualRegister| x != r ==> (#[trigger] out@.contains(x) <==> v@.subrange(0, i as int).contains(x)),
            out@.len() <= i,
            v@.subrange(0, i as int).contains(r) ==> out@.len() < i,
        decreases v.len() - i,
    {
        let x = v[i];
        let ghost before = out@;
        if x != r {
            out.push(x);
        }
        proof {
            assert(v@.subrange(0, i + 1) =~= v@.subrange(0, i as int).push(x));
            assert forall|y: VirtualRegister| y != r implies (#[trigger] out@.contains(y) <==> v@.subrange(0, i + 1).contains(y)) by {
                crate::control_flow::graph::lemma_push_contains(before, x, y);
                crate::control_flow::graph::lemma_push_contains(v@.subrange(0, i as int), x, y);
            }
            crate::control_flow::graph::lemma_push_contains(before, x, r);
            crate::control_flow::graph::lemma_push_contains(v@.subrange(0, i as int), x, r);
        }
        i += 1;
    }
    proof {
        assert(v@.subrange(0, i as int) =~= v@);
    }
    *v = out;
}

/// The callee-saved registers listed are those the mapping uses.
pub open spec fn saves_used_callee_save(a: RegisterAllocationFunction) -> bool {
    forall|p: PhysicalRegister| #[trigger] a.used_callee_save@.contains(p) <==> p.spec_is_callee_save()
        && exists|k: int| 0 <= k < a.mapping@.len() && (#[trigger] a.mapping@[k]).1 == p
}

/// A register that the calling convention fixes is given, where the mapping
/// has it, one of the physical registers it is fixed to.
pub open spec fn honours_convention(f: IRFunction, m: Seq<(VirtualRegister, PhysicalRegister)>) -> bool {
    forall|x: VirtualRegister| fixed_register(f, x) && #[trigger] lookup(m, x) is Some ==> fixed_to(f, x, lookup(m, x)->0)
}

/// The callee-saved registers that a mapping uses, each once, in order of
/// first use.
fn used_callee_saves(assignment: &Vec<(VirtualRegister, PhysicalRegister)>) -> (used: Vec<PhysicalRegister>)
    ensures
        used@.no_duplicates(),
        forall|k: int| 0 <= k < used@.len() ==> (#[trigger] used@[k]).spec_is_callee_save(),
        forall|q: PhysicalRegister| #[trigger] used@.contains(q) <==> q.spec_is_callee_save()
            && exists|k: int| 0 <= k < assignment@.len() && (#[trigger] assignment@[k]).1 == q,
{
    let callee = callee_save_registers();
    let mut used: Vec<PhysicalRegister> = Vec::new();
    let mut i: usize = 0;
    while i < assignment.len()
        invariant
            i <= assignment@.len(),
            callee@ == crate::physical_register::callee_save_list(),
            used@.no_duplicates(),
            forall|k: int| 0 <= k < used@.len() ==> (#[trigger] used@[k]).spec_is_callee_save(),
            forall|q: PhysicalRegister| #[trigger] used@.contains(q) <==> q.spec_is_callee_save()
                && exists|k: int| 0 <= k < i && (#[trigger] assignment@[k]).1 == q,
        decreases assignment.len() - i,
    {
        let p = assignment[i].1;
        let ghost before = used@;
        proof {
            crate::physical_register::lemma_save_sets(p);
        }
        if contains_physical(&callee, p) && !contains_physical(&used, p) {
            used.push(p);
        }
        proof {
            assert forall|q: PhysicalRegister| #[trigger] used@.contains(q) <==> q.spec_is_callee_save()
                && exists|k: int| 0 <= k < i + 1 && (#[trigger] assignment@[k]).1 == q by {
                crate::physical_register::lemma_save_sets(q);
                if used@.len() > before.len() {
                    assert(used@ == before.push(p));
                    if used@.contains(q) {
                        let j = choose|j: int| 0 <= j < used@.len() && used@[j] == q;
                        if j < before.len() {
                            assert(before[j] == q);
                            assert(before.contains(q));
                        }
                    }
                    if before.contains(q) {
                        let j = choose|j: int| 0 <= j < before.len() && before[j] == q;
                        assert(used@[j] == q);
                    }
                    if q == p {
                        assert(used@[before.len() as int] == q);
                    }
                }
                if (exists|k: int| 0 <= k < i + 1 && (#[trigger] assignment@[k]).1 == q) && !(exists|k: int|
                    0 <= k < i && (#[trigger] assignment@[k]).1 == q) {
                    let k = choose|k: int| 0 <= k < i + 1 && (#[trigger] assignment@[k]).1 == q;
                    assert(k == i);
                }
                if exists|k: int| 0 <= k < i && (#[trigger] assignment@[k]).1 == q {
                    let k = choose|k: int| 0 <= k < i && (#[trigger] assignment@[k]).1 == q;
                    assert(0 <= k < i + 1 && assignment@[k].1 == q);
                }
                if q == p {
                    assert(assignment@[i as int].1 == q);
                }
            }
        }
        i += 1;
    }
    used
}

/// Allocates the registers of one function. Fails when it takes or passes
/// more than six arguments, or when some register finds no colour; on
/// success registers live together get different physical registers unless
/// the calling convention fixes them, each register the convention fixes
/// gets a physical register it is fixed to, and the callee-saved registers
/// the mapping uses are listed once each, with one stack slot per saved
/// register.
#[verifier::rlimit(50)]
pub fn allocate_registers(function: &IRFunction, lifetime: &FunctionLifetime) -> (r: Result<(IRFunction, RegisterAllocationFunction), RegisterAllocatorError>)
    requires
        function.parameters@.len() == function.parameter_regs@.len(),
    ensures
        r matches Ok((f, a)) ==> keys_unique(a.mapping@) && a.used_callee_save@.no_duplicates()
            && a.max_spilled_registers == a.used_callee_save@.len()
            && forall|k: int| 0 <= k < a.used_callee_save@.len() ==> (#[trigger] a.used_callee_save@[k]).spec_is_callee_save(),
        r matches Ok((f, a)) ==> saves_used_callee_save(a),
        r matches Ok((f, a)) ==> f.name == function.name && f.parameters@ == function.parameters@
            && f.parameter_regs@ == function.parameter_regs@,
        function.parameter_regs@.len() > ARGUMENT_REGISTER_COUNT ==> r == Err::<(IRFunction, RegisterAllocationFunction), RegisterAllocatorError>(
            too_many_parameters(*function),
        ),
        r matches Ok((f, a)) ==> valid_colouring(*function, lifetime.live_in@, a.mapping@),
        r matches Ok((f, a)) ==> honours_convention(*function, a.mapping@),
        r matches Ok((f, a)) ==> same_function(f, *function),
        function.parameter_regs@.len() > ARGUMENT_REGISTER_COUNT || has_wide_call(*function) ==> r is Err,
        r is Err ==> convention_error(*function, r->Err_0) || spill_error(r->Err_0),
{
    let current_function = function.clone();
    let overlaps = lifetime.get_overlaps();
    let allocator = Allocator::new(function, lifetime, &overlaps)?;
    let ghost adj = allocator.adj_list@;
    let ghost pre = allocator.pre_colored@;
    match allocator.run() {
        Ok(assignment) => {
            proof {
                assert forall|x: VirtualRegister, y: VirtualRegister|
                    x != y && interfere(lifetime.live_in@, x, y) && !fixed_register(*function, x) && (#[trigger] lookup(assignment@, x)) is Some
                        && (#[trigger] lookup(assignment@, y)) is Some implies lookup(assignment@, x) != lookup(assignment@, y) by {
                    assert(lookup(pre, x) is None);
                    if live_together(lifetime.live_in@, x, y) {
                        assert(overlaps.overlaps@.contains((x, y)));
                    } else {
                        assert(overlaps.overlaps@.contains((y, x)));
                    }
                    assert(neighbours_in(adj, x).contains(y));
                }
            }
            let used = used_callee_saves(&assignment);
            let n = used.len();
            let ghost mapping = assignment@;
            let alloc = RegisterAllocationFunction { mapping: assignment, used_callee_save: used, max_spilled_registers: n };
            proof {
                assert(alloc.mapping@ == mapping);
                assert forall|p: PhysicalRegister| #[trigger] alloc.used_callee_save@.contains(p) <==> p.spec_is_callee_save()
                    && exists|k: int| 0 <= k < alloc.mapping@.len() && (#[trigger] alloc.mapping@[k]).1 == p by {
                    if alloc.used_callee_save@.contains(p) {
                        let k = choose|k: int| 0 <= k < mapping.len() && (#[trigger] mapping[k]).1 == p;
                        assert(alloc.mapping@[k].1 == p);
                    }
                }
                assert(saves_used_callee_save(alloc));
            }
            Ok((current_function, alloc))
        },
        Err(spilled) => {
            let mut m = "Register spilling is required for ".to_string();
            let text = crate::register_allocator::error::registers_text(&spilled);
            crate::text::push_str(&mut m, text.as_str());
            let tail = ", but the process cannot re-run liveness analysis with the current function signature. Aborting.";
            crate::text::push_str(&mut m, tail);
            proof {
                let rest = text@ + tail@;
                assert(m@ =~= "Register spilling is required for "@ + rest);
            }
            Err(RegisterAllocatorError::Other { message: m })
        },
    }
}

} // verus!
