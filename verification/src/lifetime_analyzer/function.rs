//! The lifetime analysis of one function: its elements, the program points
//! where registers are assigned or read, and liveness over those points.
use vstd::prelude::*;
use crate::control_flow::graph::{flow_edge, successors_of, ControlFlowGraph};
use crate::ir_generator::domain::{ids_unique, IRFunction};
use crate::lifetime_analyzer::domain::{address_before, FunctionLifetime, IRAddress, LifetimeElement, LiveSets};
use crate::lifetime_analyzer::element::{analyze_elements, elements_view, function_elements};
use crate::lifetime_analyzer::error::LifetimeAnalyzerError;
use crate::lifetime_analyzer::liveness::{compute_liveness, in_of, out_of, set_seq, solves, union_over, succ_seq, within_solution};
use crate::lifetime_analyzer::domain::contains_register;
use crate::virtual_register::VirtualRegister;

verus! {

/// Some element assigns or reads a register at `a`.
pub open spec fn is_point(elements: Seq<LifetimeElement>, a: IRAddress) -> bool {
    exists|i: int| 0 <= i < elements.len() && (#[trigger] elements[i].assigns@.contains(a) || elements[i].references@.contains(a))
}

/// Strictly increasing addresses.
pub open spec fn sorted_points(k: Seq<IRAddress>) -> bool {
    forall|i: int, j: int| 0 <= i < j < k.len() ==> address_before(#[trigger] k[i], #[trigger] k[j])
}

/// The registers some element reads at `a`.
pub open spec fn uses_at(elements: Seq<LifetimeElement>, a: IRAddress) -> Set<VirtualRegister> {
    Set::new(|r: VirtualRegister| exists|i: int| 0 <= i < elements.len() && #[trigger] elements[i].reg == r && elements[i].references@.contains(a))
}

/// The registers some element assigns at `a`.
pub open spec fn defs_at(elements: Seq<LifetimeElement>, a: IRAddress) -> Set<VirtualRegister> {
    Set::new(|r: VirtualRegister| exists|i: int| 0 <= i < elements.len() && #[trigger] elements[i].reg == r && elements[i].assigns@.contains(a))
}

/// Point `j` may run right after point `k`: the next point of the same
/// block, or, from the last point of a block, the first point of a block
/// that the control-flow graph says may follow.
pub open spec fn point_successor(body_ok: bool, edges: Seq<(usize, usize)>, points: Seq<IRAddress>, k: int, j: int) -> bool {
    &&& 0 <= k < points.len()
    &&& 0 <= j < points.len()
    &&& if k + 1 < points.len() && points[k + 1].id == points[k].id {
        j == k + 1
    } else {
        (j == 0 || points[j - 1].id != points[j].id) && successors_of(edges, points[k].id).contains(points[j].id)
    }
}

/// Inserts an address into a strictly increasing list unless it is there.
fn insert_point(v: &mut Vec<IRAddress>, a: IRAddress)
    requires
        sorted_points(old(v)@),
    ensures
        sorted_points(final(v)@),
        forall|x: IRAddress| #[trigger] final(v)@.contains(x) <==> old(v)@.contains(x) || x == a,
{
    let mut i: usize = 0;
    while i < v.len()
        invariant
            i <= v@.len(),
            v@ == old(v)@,
            sorted_points(v@),
            forall|j: int| 0 <= j < i ==> address_before(#[trigger] v@[j], a),
        ensures
            i <= v@.len(),
            v@ == old(v)@,
            forall|j: int| 0 <= j < i ==> address_before(#[trigger] v@[j], a),
            i < v@.len() ==> address_before(a, v@[i as int]),
        decreases v.len() - i,
    {
        let b = v[i];
        if b.id == a.id && b.offset == a.offset {
            return;
        }
        if a.id < b.id || (a.id == b.id && a.offset < b.offset) {
            break;
        }
        i += 1;
    }
    let ghost before = v@;
    v.insert(i, a);
    proof {
        assert forall|x: IRAddress| #[trigger] v@.contains(x) <==> before.contains(x) || x == a by {
            if v@.contains(x) {
                let j = choose|j: int| 0 <= j < v@.len() && v@[j] == x;
                if j < i {
                    assert(before[j] == x);
                } else if j > i {
                    assert(before[j - 1] == x);
                }
            }
            if before.contains(x) {
                let j = choose|j: int| 0 <= j < before.len() && before[j] == x;
                if j < i {
                    assert(v@[j] == x);
                } else {
                    assert(v@[j + 1] == x);
                }
            }
            if x == a {
                assert(v@[i as int] == x);
            }
        }
        assert forall|p: int, q: int| 0 <= p < q < v@.len() implies address_before(#[trigger] v@[p], #[trigger] v@[q]) by {
            if q < i {
                assert(v@[p] == before[p] && v@[q] == before[q]);
            } else if p > i {
                assert(v@[p] == before[p - 1] && v@[q] == before[q - 1]);
            } else if p == i {
                assert(v@[q] == before[q - 1]);
                if i < before.len() {
                    assert(address_before(a, before[i as int]));
                    if q - 1 > i {
                        assert(address_before(before[i as int], before[q - 1]));
                    }
                }
            } else {
                assert(v@[p] == before[p]);
                assert(q == i || q > i);
                if q > i {
                    assert(v@[q] == before[q - 1]);
                    assert(address_before(before[p], a));
                    assert(address_before(a, before[i as int]) || q - 1 == i);
                }
            }
        }
    }
}

/// The addresses where the elements assign or read, strictly increasing.
fn collect_points(elements: &Vec<LifetimeElement>) -> (r: Vec<IRAddress>)
    ensures
        sorted_points(r@),
        forall|a: IRAddress| #[trigger] r@.contains(a) <==> is_point(elements@, a),
{
    let mut points: Vec<IRAddress> = Vec::new();
    let mut i: usize = 0;
    while i < elements.len()
        invariant
            i <= elements@.len(),
            sorted_points(points@),
            forall|a: IRAddress| #[trigger] points@.contains(a) <==> is_point(elements@.subrange(0, i as int), a),
        decreases elements.len() - i,
    {
        let e = &elements[i];
        let ghost base = points@;
        proof {
            assert forall|a: IRAddress| #[trigger] base.contains(a) <==> is_point(elements@.subrange(0, i as int), a) by {}
        }
        let mut j: usize = 0;
        while j < e.assigns.len()
            invariant
                i < elements@.len(),
                *e == elements@[i as int],
                j <= e.assigns@.len(),
                sorted_points(points@),
                forall|a: IRAddress| #[trigger] points@.contains(a) <==> base.contains(a) || e.assigns@.subrange(0, j as int).contains(a),
            decreases e.assigns.len() - j,
        {
            let ghost p0 = points@;
            insert_point(&mut points, e.assigns[j]);
            proof {
                assert forall|a: IRAddress| #[trigger] points@.contains(a) <==> base.contains(a) || e.assigns@.subrange(0, j + 1).contains(a) by {
                    assert(e.assigns@.subrange(0, j + 1) =~= e.assigns@.subrange(0, j as int).push(e.assigns@[j as int]));
                    crate::control_flow::graph::lemma_push_contains(e.assigns@.subrange(0, j as int), e.assigns@[j as int], a);
                }
            }
            j += 1;
        }
        let ghost mid = points@;
        proof {
            assert(e.assigns@.subrange(0, j as int) =~= e.assigns@);
            assert forall|a: IRAddress| #[trigger] mid.contains(a) <==> base.contains(a) || e.assigns@.contains(a) by {}
        }
        let mut k: usize = 0;
        while k < e.references.len()
            invariant
                i < elements@.len(),
                *e == elements@[i as int],
                k <= e.references@.len(),
                sorted_points(points@),
                forall|a: IRAddress| #[trigger] points@.contains(a) <==> mid.contains(a) || e.references@.subrange(0, k as int).contains(a),
            decreases e.references.len() - k,
        {
            insert_point(&mut points, e.references[k]);
            proof {
                assert forall|a: IRAddress| #[trigger] points@.contains(a) <==> mid.contains(a) || e.references@.subrange(0, k + 1).contains(a) by {
                    assert(e.references@.subrange(0, k + 1) =~= e.references@.subrange(0, k as int).push(e.references@[k as int]));
                    crate::control_flow::graph::lemma_push_contains(e.references@.subrange(0, k as int), e.references@[k as int], a);
                }
            }
            k += 1;
        }
        proof {
            assert(e.assigns@.subrange(0, j as int) =~= e.assigns@);
            assert(e.references@.subrange(0, k as int) =~= e.references@);
            let s0 = elements@.subrange(0, i as int);
            let s1 = elements@.subrange(0, i + 1);
            assert forall|a: IRAddress| #[trigger] points@.contains(a) <==> is_point(s1, a) by {
                if is_point(s1, a) {
                    let q = choose|q: int| 0 <= q < s1.len() && (#[trigger] s1[q].assigns@.contains(a) || s1[q].references@.contains(a));
                    if q < i {
                        assert(s0[q] == s1[q]);
                        assert(is_point(s0, a));
                    }
                }
                if is_point(s0, a) {
                    let q = choose|q: int| 0 <= q < s0.len() && (#[trigger] s0[q].assigns@.contains(a) || s0[q].references@.contains(a));
                    assert(s1[q] == s0[q]);
                }
                if e.assigns@.contains(a) || e.references@.contains(a) {
                    assert(s1[i as int] == *e);
                }
            }
        }
        i += 1;
    }
    proof {
        assert(elements@.subrange(0, i as int) =~= elements@);
    }
    points
}

/// The position of an address in a strictly increasing list.
fn point_index(points: &Vec<IRAddress>, a: IRAddress) -> (r: Option<usize>)
    ensures
        r matches Some(k) ==> k < points@.len() && points@[k as int] == a,
        r is None ==> !points@.contains(a),
{
    let mut k: usize = 0;
    while k < points.len()
        invariant
            k <= points@.len(),
            forall|j: int| 0 <= j < k ==> points@[j] != a,
        decreases points.len() - k,
    {
        if points[k].id == a.id && points[k].offset == a.offset {
            return Some(k);
        }
        k += 1;
    }
    None
}

/// For each point, the registers that elements read there (or, with
/// `assigned`, assign there).
fn registers_at(elements: &Vec<LifetimeElement>, points: &Vec<IRAddress>, assigned: bool) -> (r: Vec<Vec<VirtualRegister>>)
    requires
        forall|a: IRAddress| #[trigger] points@.contains(a) <==> is_point(elements@, a),
    ensures
        r@.len() == points@.len(),
        forall|k: int| 0 <= k < r@.len() ==> (#[trigger] r@[k])@.no_duplicates(),
        forall|k: int| 0 <= k < r@.len() ==> (#[trigger] r@[k])@.to_set() == if assigned {
            defs_at(elements@, points@[k])
        } else {
            uses_at(elements@, points@[k])
        },
{
    let mut out: Vec<Vec<VirtualRegister>> = Vec::new();
    let mut p: usize = 0;
    while p < points.len()
        invariant
            p <= points@.len(),
            out@.len() == p,
            forall|k: int| 0 <= k < p ==> (#[trigger] out@[k])@.no_duplicates(),
            forall|k: int| 0 <= k < p ==> (#[trigger] out@[k])@.to_set() == if assigned {
                defs_at(elements@, points@[k])
            } else {
                uses_at(elements@, points@[k])
            },
        decreases points.len() - p,
    {
        let a = points[p];
        let mut regs: Vec<VirtualRegister> = Vec::new();
        let mut i: usize = 0;
        while i < elements.len()
            invariant
                i <= elements@.len(),
                regs@.no_duplicates(),
                forall|r: VirtualRegister| #[trigger] regs@.contains(r) <==> exists|q: int| 0 <= q < i && #[trigger] elements@[q].reg == r
                    && (if assigned { elements@[q].assigns@.contains(a) } else { elements@[q].references@.contains(a) }),
            decreases elements.len() - i,
        {
            let e = &elements[i];
            let list = if assigned { &e.assigns } else { &e.references };
            let found = point_index(list, a).is_some();
            let ghost before = regs@;
            if found && !contains_register(&regs, e.reg) {
                regs.push(e.reg);
            }
            proof {
                assert forall|r: VirtualRegister| #[trigger] regs@.contains(r) <==> exists|q: int| 0 <= q < i + 1 && #[trigger] elements@[q].reg == r
                    && (if assigned { elements@[q].assigns@.contains(a) } else { elements@[q].references@.contains(a) }) by {
                    crate::control_flow::graph::lemma_push_contains(before, e.reg, r);
                    if found && r == e.reg {
                        assert(elements@[i as int].reg == r);
                    }
                }
            }
            i += 1;
        }
        proof {
            let target = if assigned { defs_at(elements@, a) } else { uses_at(elements@, a) };
            assert(regs@.to_set() =~= target);
        }
        out.push(regs);
        p += 1;
    }
    out
}

/// The successor points of every point.
fn successor_points(flow: &ControlFlowGraph, points: &Vec<IRAddress>) -> (r: Vec<Vec<usize>>)
    requires
        sorted_points(points@),
    ensures
        r@.len() == points@.len(),
        forall|i: int, k: int| 0 <= i < r@.len() && 0 <= k < r@[i]@.len() ==> #[trigger] r@[i]@[k] < points@.len(),
        forall|i: int, j: int| 0 <= i < r@.len() && 0 <= j < points@.len() ==> (#[trigger] r@[i]@.contains(j as usize)
            <==> point_successor(true, flow.edges@, points@, i, j)),
{
    let n = points.len();
    let mut out: Vec<Vec<usize>> = Vec::new();
    let mut i: usize = 0;
    while i < n
        invariant
            n == points@.len(),
            sorted_points(points@),
            i <= n,
            out@.len() == i,
            forall|p: int, k: int| 0 <= p < i && 0 <= k < out@[p]@.len() ==> #[trigger] out@[p]@[k] < n,
            forall|p: int, j: int| 0 <= p < i && 0 <= j < n ==> (#[trigger] out@[p]@.contains(j as usize)
                <==> point_successor(true, flow.edges@, points@, p, j)),
        decreases n - i,
    {
        let mut list: Vec<usize> = Vec::new();
        if i + 1 < n && points[i + 1].id == points[i].id {
            list.push(i + 1);
            proof {
                assert forall|j: int| 0 <= j < n implies #[trigger] list@.contains(j as usize) <==> point_successor(true, flow.edges@, points@, i as int, j) by {
                    if j == i + 1 {
                        assert(list@[0] == j as usize);
                    }
                }
            }
        } else {
            let succs = flow.successors(points[i].id);
            let mut s: usize = 0;
            while s < succs.len()
                invariant
                    n == points@.len(),
                    sorted_points(points@),
                    i < n,
                    !(i + 1 < n && points@[i + 1].id == points@[i as int].id),
                    succs@ == successors_of(flow.edges@, points@[i as int].id),
                    s <= succs@.len(),
                    forall|k: int| 0 <= k < list@.len() ==> #[trigger] list@[k] < n,
                    forall|j: int| 0 <= j < n ==> (#[trigger] list@.contains(j as usize) <==> ((j == 0 || points@[j - 1].id != points@[j].id)
                        && succs@.subrange(0, s as int).contains(points@[j].id))),
                decreases succs.len() - s,
            {
                let target = succs[s];
                let mut j: usize = 0;
                let mut found = false;
                while j < n
                    invariant
                        n == points@.len(),
                        j <= n,
                        !found ==> forall|q: int| 0 <= q < j ==> points@[q].id != target,
                        found ==> j < n && points@[j as int].id == target && (j == 0 || points@[j - 1].id != target),
                    ensures
                        !found ==> forall|q: int| 0 <= q < n ==> points@[q].id != target,
                        found ==> j < n && points@[j as int].id == target && (j == 0 || points@[j - 1].id != target),
                    decreases n - j,
                {
                    if points[j].id == target {
                        found = true;
                        break;
                    }
                    j += 1;
                }
                let ghost before = list@;
                if found {
                    list.push(j);
                }
                proof {
                    assert(succs@.subrange(0, s + 1) =~= succs@.subrange(0, s as int).push(target));
                    assert forall|q: int| 0 <= q < n implies (#[trigger] list@.contains(q as usize) <==> ((q == 0 || points@[q - 1].id != points@[q].id)
                        && succs@.subrange(0, s + 1).contains(points@[q].id))) by {
                        crate::control_flow::graph::lemma_push_contains(before, j, q as usize);
                        crate::control_flow::graph::lemma_push_contains(succs@.subrange(0, s as int), target, points@[q].id);
                        if points@[q].id == target && (q == 0 || points@[q - 1].id != points@[q].id) {
                            assert(found);
                            if q < j {
                                assert(points@[j - 1].id == target) by {
                                    assert(address_before(points@[q], points@[j - 1]) || q == j - 1);
                                    assert(address_before(points@[j - 1], points@[j as int]));
                                }
                            }
                            if q > j {
                                assert(points@[q - 1].id == target) by {
                                    assert(address_before(points@[j as int], points@[q - 1]) || j == q - 1);
                                    assert(address_before(points@[q - 1], points@[q]));
                                }
                            }
                        }
                    }
                }
                s += 1;
            }
            proof {
                assert(succs@.subrange(0, s as int) =~= succs@);
            }
        }
        out.push(list);
        i += 1;
    }
    out
}

/// What is live before and after each point of a function, given its
/// elements and its control-flow graph.
pub open spec fn live_sets_solve(
    elements: Seq<LifetimeElement>,
    edges: Seq<(usize, usize)>,
    points: Seq<IRAddress>,
    live_in: Seq<(IRAddress, Vec<VirtualRegister>)>,
    live_out: Seq<(IRAddress, Vec<VirtualRegister>)>,
) -> bool {
    &&& live_in.len() == points.len()
    &&& live_out.len() == points.len()
    &&& forall|k: int| 0 <= k < points.len() ==> (#[trigger] live_in[k]).0 == points[k] && live_out[k].0 == points[k]
    &&& forall|k: int, x: VirtualRegister| 0 <= k < points.len() ==> (#[trigger] live_out[k].1@.contains(x) <==> exists|j: int|
        #[trigger] point_successor(true, edges, points, k, j) && live_in[j].1@.contains(x))
    &&& forall|k: int, x: VirtualRegister| 0 <= k < points.len() ==> (#[trigger] live_in[k].1@.contains(x) <==> uses_at(elements, points[k]).contains(x)
        || (live_out[k].1@.contains(x) && !defs_at(elements, points[k]).contains(x)))
}

/// Sets of registers at the points that satisfy the liveness equations.
pub open spec fn sets_solve(
    elements: Seq<LifetimeElement>,
    edges: Seq<(usize, usize)>,
    points: Seq<IRAddress>,
    si: Seq<Set<VirtualRegister>>,
    so: Seq<Set<VirtualRegister>>,
) -> bool {
    &&& si.len() == points.len()
    &&& so.len() == points.len()
    &&& forall|k: int, x: VirtualRegister| 0 <= k < points.len() ==> (#[trigger] so[k].contains(x) <==> exists|j: int|
        #[trigger] point_successor(true, edges, points, k, j) && si[j].contains(x))
    &&& forall|k: int, x: VirtualRegister| 0 <= k < points.len() ==> (#[trigger] si[k].contains(x) <==> uses_at(elements, points[k]).contains(x)
        || (so[k].contains(x) && !defs_at(elements, points[k]).contains(x)))
}

/// The live sets are contained, point by point, in every solution of the
/// liveness equations: they are the least one.
pub open spec fn least_live_sets(
    elements: Seq<LifetimeElement>,
    edges: Seq<(usize, usize)>,
    points: Seq<IRAddress>,
    live_in: Seq<(IRAddress, Vec<VirtualRegister>)>,
    live_out: Seq<(IRAddress, Vec<VirtualRegister>)>,
) -> bool {
    forall|si: Seq<Set<VirtualRegister>>, so: Seq<Set<VirtualRegister>>| #[trigger] sets_solve(elements, edges, points, si, so)
        ==> forall|k: int, x: VirtualRegister| 0 <= k < points.len() ==> (#[trigger] live_in[k].1@.contains(x) ==> si[k].contains(x))
            && (live_out[k].1@.contains(x) ==> so[k].contains(x))
}

/// No live set lists a register twice.
pub open spec fn sets_distinct(sets: Seq<(IRAddress, Vec<VirtualRegister>)>) -> bool {
    forall|k: int| 0 <= k < sets.len() ==> (#[trigger] sets[k]).1@.no_duplicates()
}

/// `l` is the lifetime analysis of `f`: its elements, and live sets keyed
/// by the points of the elements in address order that are the least
/// solution of the liveness equations (over the control-flow edges of the
/// body when its block ids are unique).
pub open spec fn lifetime_of(f: IRFunction, l: FunctionLifetime) -> bool {
    &&& l.name == f.name
    &&& sets_distinct(l.live_in@)
    &&& sets_distinct(l.live_out@)
    &&& Some(elements_view(l.elements@)) == function_elements(f)
    &&& exists|points: Seq<IRAddress>, edges: Seq<(usize, usize)>| {
        &&& sorted_points(points)
        &&& (forall|a: IRAddress| #[trigger] points.contains(a) <==> is_point(l.elements@, a))
        &&& (ids_unique(f.body@) ==> forall|x: usize, y: usize| #[trigger] edges.contains((x, y)) <==> flow_edge(f.body@, x, y))
        &&& live_sets_solve(l.elements@, edges, points, l.live_in@, l.live_out@)
        &&& least_live_sets(l.elements@, edges, points, l.live_in@, l.live_out@)
    }
}

proof fn lemma_union_over_contains(ins: Seq<Set<VirtualRegister>>, ss: Seq<usize>, x: VirtualRegister)
    ensures
        union_over(ins, ss).contains(x) <==> exists|k: int| 0 <= k < ss.len() && #[trigger] ins[ss[k] as int].contains(x),
    decreases ss.len(),
{
    if ss.len() > 0 {
        lemma_union_over_contains(ins, ss.drop_last(), x);
        if exists|k: int| 0 <= k < ss.len() && #[trigger] ins[ss[k] as int].contains(x) {
            let k = choose|k: int| 0 <= k < ss.len() && #[trigger] ins[ss[k] as int].contains(x);
            if k < ss.len() - 1 {
                assert(ss.drop_last()[k] == ss[k]);
            }
        }
        if exists|k: int| 0 <= k < ss.len() - 1 && #[trigger] ins[ss.drop_last()[k] as int].contains(x) {
            let k = choose|k: int| 0 <= k < ss.len() - 1 && #[trigger] ins[ss.drop_last()[k] as int].contains(x);
            assert(ss.drop_last()[k] == ss[k]);
        }
    }
}

/// The lifetime analysis of a function. Fails exactly when collecting its
/// elements fails (see [`analyze_elements`]). On success the elements are
/// those, and `live_in`/`live_out` have one entry per point where some
/// element assigns or reads, in address order; when the block ids are unique
/// they are the least solution of the liveness equations: live after a
/// point is what is live before some successor point, live before a point
/// is what it reads plus what is live after it and it does not assign.
pub fn analyze_function(function: &IRFunction) -> (r: Result<FunctionLifetime, LifetimeAnalyzerError>)
    requires
        function.body@.len() > 0 || (function.parameter_regs@.len() == 0 && function.parameters@.len() == 0),
    ensures
        r is Ok <==> function_elements(*function) is Some,
        r matches Ok(l) ==> lifetime_of(*function, l),
        r is Err ==> r->Err_0.message@ == crate::lifetime_analyzer::element::missing_message(crate::lifetime_analyzer::element::function_missing(*function)),
{
    let elements = analyze_elements(function)?;
    let flow = ControlFlowGraph::from_function(function);
    let points = collect_points(&elements);
    let succ = successor_points(&flow, &points);
    let uses = registers_at(&elements, &points, false);
    let defs = registers_at(&elements, &points, true);
    let (ins, outs) = compute_liveness(&succ, &uses, &defs);
    let ghost sv = Seq::new(succ@.len(), |i: int| succ@[i]@);
    let mut live_in: LiveSets = Vec::new();
    let mut live_out: LiveSets = Vec::new();
    let mut rest_in = ins;
    let mut rest_out = outs;
    let ghost all_in = rest_in@;
    let ghost all_out = rest_out@;
    let n = points.len();
    let mut k: usize = 0;
    while k < n
        invariant
            n == points@.len(),
            k <= n,
            rest_in@ == all_in.subrange(k as int, n as int),
            rest_out@ == all_out.subrange(k as int, n as int),
            all_in.len() == n,
            all_out.len() == n,
            live_in@.len() == k,
            live_out@.len() == k,
            forall|q: int| 0 <= q < k ==> (#[trigger] live_in@[q]).0 == points@[q] && live_in@[q].1@ == all_in[q]@,
            forall|q: int| 0 <= q < k ==> (#[trigger] live_out@[q]).0 == points@[q] && live_out@[q].1@ == all_out[q]@,
        decreases n - k,
    {
        let regs_in = rest_in.remove(0);
        let regs_out = rest_out.remove(0);
        live_in.push((points[k], regs_in));
        live_out.push((points[k], regs_out));
        k += 1;
        proof {
            assert(rest_in@ =~= all_in.subrange(k as int, n as int));
            assert(rest_out@ =~= all_out.subrange(k as int, n as int));
        }
    }
    let result = FunctionLifetime { name: function.name.clone(), elements, live_in, live_out };
    proof {
        assert forall|q: int| 0 <= q < result.live_in@.len() implies (#[trigger] result.live_in@[q]).1@.no_duplicates() by {
            assert(result.live_in@[q].1@ == all_in[q]@);
        }
        assert forall|q: int| 0 <= q < result.live_out@.len() implies (#[trigger] result.live_out@[q]).1@.no_duplicates() by {
            assert(result.live_out@[q].1@ == all_out[q]@);
        }
        let si = set_seq(all_in);
        let so = set_seq(all_out);
        let us = set_seq(uses@);
        let ds = set_seq(defs@);
        assert(solves(si, so, sv, us, ds));
        let li = result.live_in@;
        let lo = result.live_out@;
        assert forall|q: int, x: VirtualRegister| 0 <= q < points@.len() implies (#[trigger] lo[q].1@.contains(x) <==> exists|j: int|
            #[trigger] point_successor(true, flow.edges@, points@, q, j) && li[j].1@.contains(x)) by {
            assert(so[q] == out_of(si, sv, q));
            lemma_union_over_contains(si, sv[q], x);
            assert(lo[q].1@.contains(x) == so[q].contains(x));
            if lo[q].1@.contains(x) {
                let m = choose|m: int| 0 <= m < sv[q].len() && #[trigger] si[sv[q][m] as int].contains(x);
                let j = sv[q][m] as int;
                assert(succ@[q]@.contains(j as usize));
                assert(li[j].1@.contains(x));
            }
            if exists|j: int| #[trigger] point_successor(true, flow.edges@, points@, q, j) && li[j].1@.contains(x) {
                let j = choose|j: int| #[trigger] point_successor(true, flow.edges@, points@, q, j) && li[j].1@.contains(x);
                assert(succ@[q]@.contains(j as usize));
                let m = choose|m: int| 0 <= m < succ@[q]@.len() && succ@[q]@[m] == j as usize;
                assert(sv[q][m] == j as usize);
                assert(si[j].contains(x));
            }
        }
        assert forall|q: int, x: VirtualRegister| 0 <= q < points@.len() implies (#[trigger] li[q].1@.contains(x) <==> uses_at(result.elements@, points@[q]).contains(x)
            || (lo[q].1@.contains(x) && !defs_at(result.elements@, points@[q]).contains(x))) by {
            assert(si[q] == in_of(si, sv, us, ds, q));
            assert(so[q] == out_of(si, sv, q));
            assert(us[q] == uses@[q]@.to_set());
            assert(ds[q] == defs@[q]@.to_set());
            assert(uses@[q]@.to_set() == uses_at(result.elements@, points@[q]));
            assert(defs@[q]@.to_set() == defs_at(result.elements@, points@[q]));
            assert(si[q] == all_in[q]@.to_set());
            assert(so[q] == all_out[q]@.to_set());
            assert(li[q].1@ == all_in[q]@);
            assert(lo[q].1@ == all_out[q]@);
            assert(all_in[q]@.to_set().contains(x) == all_in[q]@.contains(x));
            assert(all_out[q]@.to_set().contains(x) == all_out[q]@.contains(x));
            assert(in_of(si, sv, us, ds, q).contains(x) == (us[q].contains(x) || (so[q].contains(x) && !ds[q].contains(x))));
        }
        assert(live_sets_solve(result.elements@, flow.edges@, points@, li, lo));
        assert forall|ti: Seq<Set<VirtualRegister>>, to: Seq<Set<VirtualRegister>>| #[trigger] sets_solve(result.elements@, flow.edges@, points@, ti, to)
            implies forall|k: int, x: VirtualRegister| 0 <= k < points@.len() ==> (#[trigger] li[k].1@.contains(x) ==> ti[k].contains(x))
                && (lo[k].1@.contains(x) ==> to[k].contains(x)) by {
            assert(sv == succ_seq(succ@));
            assert forall|q: int| 0 <= q < sv.len() implies #[trigger] to[q] == out_of(ti, sv, q) by {
                assert forall|x: VirtualRegister| to[q].contains(x) <==> out_of(ti, sv, q).contains(x) by {
                    lemma_union_over_contains(ti, sv[q], x);
                    if to[q].contains(x) {
                        let j = choose|j: int| #[trigger] point_successor(true, flow.edges@, points@, q, j) && ti[j].contains(x);
                        assert(succ@[q]@.contains(j as usize));
                        let m = choose|m: int| 0 <= m < succ@[q]@.len() && succ@[q]@[m] == j as usize;
                        assert(sv[q][m] == j as usize);
                    }
                    if out_of(ti, sv, q).contains(x) {
                        let m = choose|m: int| 0 <= m < sv[q].len() && #[trigger] ti[sv[q][m] as int].contains(x);
                        let j = sv[q][m] as int;
                        assert(succ@[q]@.contains(j as usize));
                        assert(point_successor(true, flow.edges@, points@, q, j));
                    }
                }
                assert(to[q] =~= out_of(ti, sv, q));
            }
            assert forall|q: int| 0 <= q < sv.len() implies #[trigger] ti[q] == in_of(ti, sv, us, ds, q) by {
                assert(us[q] == uses_at(result.elements@, points@[q]));
                assert(ds[q] == defs_at(result.elements@, points@[q]));
                assert(to[q] == out_of(ti, sv, q));
                assert(ti[q] =~= in_of(ti, sv, us, ds, q));
            }
            assert(solves(ti, to, succ_seq(succ@), us, ds));
            assert(within_solution(si, so, ti, to));
            assert forall|k: int, x: VirtualRegister| 0 <= k < points@.len() implies (#[trigger] li[k].1@.contains(x) ==> ti[k].contains(x))
                && (lo[k].1@.contains(x) ==> to[k].contains(x)) by {
                assert(li[k].1@ == all_in[k]@);
                assert(lo[k].1@ == all_out[k]@);
                assert(si[k] == all_in[k]@.to_set());
                assert(so[k] == all_out[k]@.to_set());
                if li[k].1@.contains(x) {
                    assert(all_in[k]@.to_set().contains(x));
                }
                if lo[k].1@.contains(x) {
                    assert(all_out[k]@.to_set().contains(x));
                }
            }
        }
        assert(sorted_points(points@));
        assert(forall|a: IRAddress| #[trigger] points@.contains(a) <==> is_point(result.elements@, a));
        assert(ids_unique(function.body@) ==> forall|x: usize, y: usize| #[trigger] flow.edges@.contains((x, y)) <==> flow_edge(function.body@, x, y));
    }
    Ok(result)
}

} // verus!
