//! Backward liveness over numbered program points: the smallest assignment
//! of live-in and live-out register sets that satisfies the dataflow
//! equations, computed by iterating them from empty sets.
use vstd::prelude::*;
use vstd::set_lib::{lemma_len_subset, lemma_subset_equality};
use crate::virtual_register::VirtualRegister;
use crate::lifetime_analyzer::domain::contains_register;

verus! {

/// Lists of registers as sets.
pub open spec fn set_seq(v: Seq<Vec<VirtualRegister>>) -> Seq<Set<VirtualRegister>> {
    Seq::new(v.len(), |i: int| v[i]@.to_set())
}

/// The union of the sets at the given positions.
pub open spec fn union_over(ins: Seq<Set<VirtualRegister>>, ss: Seq<usize>) -> Set<VirtualRegister>
    decreases ss.len(),
{
    if ss.len() == 0 {
        Set::empty()
    } else {
        union_over(ins, ss.drop_last()).union(ins[ss.last() as int])
    }
}

/// What is live after point `i`: what is live before any successor.
pub open spec fn out_of(ins: Seq<Set<VirtualRegister>>, succ: Seq<Seq<usize>>, i: int) -> Set<VirtualRegister> {
    union_over(ins, succ[i])
}

/// What is live before point `i`: what it reads, and what is live after it
/// that it does not assign.
pub open spec fn in_of(
    ins: Seq<Set<VirtualRegister>>,
    succ: Seq<Seq<usize>>,
    uses: Seq<Set<VirtualRegister>>,
    defs: Seq<Set<VirtualRegister>>,
    i: int,
) -> Set<VirtualRegister> {
    uses[i].union(out_of(ins, succ, i).difference(defs[i]))
}

/// The live sets satisfy the liveness equations at every point.
pub open spec fn solves(
    ins: Seq<Set<VirtualRegister>>,
    outs: Seq<Set<VirtualRegister>>,
    succ: Seq<Seq<usize>>,
    uses: Seq<Set<VirtualRegister>>,
    defs: Seq<Set<VirtualRegister>>,
) -> bool {
    &&& ins.len() == succ.len()
    &&& outs.len() == succ.len()
    &&& forall|i: int| 0 <= i < succ.len() ==> #[trigger] outs[i] == out_of(ins, succ, i)
    &&& forall|i: int| 0 <= i < succ.len() ==> #[trigger] ins[i] == in_of(ins, succ, uses, defs, i)
}

/// Successor lists as sequences.
pub open spec fn succ_seq(succ: Seq<Vec<usize>>) -> Seq<Seq<usize>> {
    Seq::new(succ.len(), |i: int| succ[i]@)
}

/// The sets are pointwise contained in the sets of a solution.
pub open spec fn within_solution(
    ins: Seq<Set<VirtualRegister>>,
    outs: Seq<Set<VirtualRegister>>,
    si: Seq<Set<VirtualRegister>>,
    so: Seq<Set<VirtualRegister>>,
) -> bool {
    forall|j: int| 0 <= j < ins.len() ==> (#[trigger] ins[j]).subset_of(si[j]) && outs[j].subset_of(so[j])
}

/// Every successor index names a point.
pub open spec fn succ_in_range(succ: Seq<Seq<usize>>) -> bool {
    forall|i: int, k: int| 0 <= i < succ.len() && 0 <= k < succ[i].len() ==> #[trigger] succ[i][k] < succ.len()
}

/// Sets no larger than what the equations give.
spec fn below(
    ins: Seq<Set<VirtualRegister>>,
    outs: Seq<Set<VirtualRegister>>,
    succ: Seq<Seq<usize>>,
    uses: Seq<Set<VirtualRegister>>,
    defs: Seq<Set<VirtualRegister>>,
) -> bool {
    forall|i: int| 0 <= i < succ.len() ==> (#[trigger] ins[i]).subset_of(in_of(ins, succ, uses, defs, i))
        && outs[i].subset_of(out_of(ins, succ, i))
}

/// Every register that some point reads.
pub open spec fn all_uses(uses: Seq<Set<VirtualRegister>>) -> Set<VirtualRegister>
    decreases uses.len(),
{
    if uses.len() == 0 {
        Set::empty()
    } else {
        all_uses(uses.drop_last()).union(uses.last())
    }
}

spec fn within(xs: Seq<Set<VirtualRegister>>, u: Set<VirtualRegister>) -> bool {
    forall|i: int| 0 <= i < xs.len() ==> (#[trigger] xs[i]).subset_of(u)
}

/// How many registers of `u` the sets are still missing, in total.
spec fn deficit(xs: Seq<Set<VirtualRegister>>, u: Set<VirtualRegister>) -> nat
    decreases xs.len(),
{
    if xs.len() == 0 {
        0
    } else {
        deficit(xs.drop_last(), u) + (u.len() - xs.last().len()) as nat
    }
}

proof fn lemma_all_uses(uses: Seq<Set<VirtualRegister>>, i: int)
    requires
        forall|j: int| 0 <= j < uses.len() ==> (#[trigger] uses[j]).finite(),
        0 <= i < uses.len(),
    ensures
        uses[i].subset_of(all_uses(uses)),
        all_uses(uses).finite(),
    decreases uses.len(),
{
    if i < uses.len() - 1 {
        lemma_all_uses(uses.drop_last(), i);
        assert(uses.drop_last()[i] == uses[i]);
    } else if uses.len() > 1 {
        lemma_all_uses(uses.drop_last(), 0);
    }
    lemma_all_uses_finite(uses);
}

proof fn lemma_all_uses_finite(uses: Seq<Set<VirtualRegister>>)
    requires
        forall|j: int| 0 <= j < uses.len() ==> (#[trigger] uses[j]).finite(),
    ensures
        all_uses(uses).finite(),
    decreases uses.len(),
{
    if uses.len() > 0 {
        lemma_all_uses_finite(uses.drop_last());
    }
}

proof fn lemma_union_mono(a: Seq<Set<VirtualRegister>>, b: Seq<Set<VirtualRegister>>, ss: Seq<usize>)
    requires
        a.len() == b.len(),
        forall|i: int| 0 <= i < a.len() ==> (#[trigger] a[i]).subset_of(b[i]),
        forall|k: int| 0 <= k < ss.len() ==> #[trigger] ss[k] < a.len(),
    ensures
        union_over(a, ss).subset_of(union_over(b, ss)),
    decreases ss.len(),
{
    if ss.len() > 0 {
        lemma_union_mono(a, b, ss.drop_last());
        assert(ss.last() == ss[ss.len() - 1]);
    }
}

proof fn lemma_union_within(a: Seq<Set<VirtualRegister>>, ss: Seq<usize>, u: Set<VirtualRegister>)
    requires
        within(a, u),
        forall|k: int| 0 <= k < ss.len() ==> #[trigger] ss[k] < a.len(),
    ensures
        union_over(a, ss).subset_of(u),
    decreases ss.len(),
{
    if ss.len() > 0 {
        lemma_union_within(a, ss.drop_last(), u);
        assert(ss.last() == ss[ss.len() - 1]);
    }
}

proof fn lemma_deficit_update(xs: Seq<Set<VirtualRegister>>, u: Set<VirtualRegister>, i: int, y: Set<VirtualRegister>)
    requires
        0 <= i < xs.len(),
        within(xs, u),
        u.finite(),
        xs[i].subset_of(y),
        y.subset_of(u),
    ensures
        deficit(xs.update(i, y), u) <= deficit(xs, u),
        y != xs[i] ==> deficit(xs.update(i, y), u) < deficit(xs, u),
    decreases xs.len(),
{
    lemma_len_subset(xs[i], y);
    lemma_len_subset(y, u);
    if y != xs[i] {
        if xs[i].len() == y.len() {
            lemma_subset_equality(xs[i], y);
        }
    }
    let ys = xs.update(i, y);
    if i < xs.len() - 1 {
        assert(ys.drop_last() =~= xs.drop_last().update(i, y));
        assert forall|j: int| 0 <= j < xs.drop_last().len() implies (#[trigger] xs.drop_last()[j]).subset_of(u) by {
            assert(xs.drop_last()[j] == xs[j]);
        }
        lemma_deficit_update(xs.drop_last(), u, i, y);
        assert(ys.last() == xs.last());
    } else {
        assert(ys.drop_last() =~= xs.drop_last());
    }
}

/// `dst` gains the registers of `src`.
pub fn union_into(dst: &mut Vec<VirtualRegister>, src: &Vec<VirtualRegister>)
    requires
        old(dst)@.no_duplicates(),
    ensures
        final(dst)@.no_duplicates(),
        final(dst)@.to_set() == old(dst)@.to_set().union(src@.to_set()),
{
    let mut i: usize = 0;
    while i < src.len()
        invariant
            i <= src@.len(),
            dst@.no_duplicates(),
            dst@.to_set() == old(dst)@.to_set().union(src@.subrange(0, i as int).to_set()),
        decreases src.len() - i,
    {
        let r = src[i];
        let ghost before = dst@;
        if !contains_register(dst, r) {
            dst.push(r);
            proof {
                assert(dst@.to_set() =~= before.to_set().insert(r)) by {
                    before.lemma_push_to_set_commute(r);
                }
            }
        }
        proof {
            assert(src@.subrange(0, i + 1) =~= src@.subrange(0, i as int).push(r));
            src@.subrange(0, i as int).lemma_push_to_set_commute(r);
            assert(dst@.to_set() =~= old(dst)@.to_set().union(src@.subrange(0, i + 1).to_set()));
        }
        i += 1;
    }
    proof {
        assert(src@.subrange(0, i as int) =~= src@);
    }
}

/// The registers of `a` that are not in `b`.
pub fn minus(a: &Vec<VirtualRegister>, b: &Vec<VirtualRegister>) -> (r: Vec<VirtualRegister>)
    requires
        a@.no_duplicates(),
    ensures
        r@.no_duplicates(),
        r@.to_set() == a@.to_set().difference(b@.to_set()),
{
    let mut out: Vec<VirtualRegister> = Vec::new();
    let mut i: usize = 0;
    while i < a.len()
        invariant
            i <= a@.len(),
            a@.no_duplicates(),
            out@.no_duplicates(),
            forall|x: VirtualRegister| out@.contains(x) ==> exists|j: int| 0 <= j < i && a@[j] == x,
            out@.to_set() == a@.subrange(0, i as int).to_set().difference(b@.to_set()),
        decreases a.len() - i,
    {
        let x = a[i];
        let ghost before = out@;
        if !contains_register(b, x) {
            proof {
                if before.contains(x) {
                    let j = choose|j: int| 0 <= j < i && a@[j] == x;
                    assert(a@[j] == a@[i as int]);
                }
            }
            out.push(x);
            proof {
                before.lemma_push_to_set_commute(x);
                assert forall|y: VirtualRegister| out@.contains(y) implies exists|j: int| 0 <= j < i + 1 && a@[j] == y by {
                    crate::control_flow::graph::lemma_push_contains(before, x, y);
                    if y == x {
                        assert(a@[i as int] == y);
                    }
                }
            }
        }
        proof {
            assert(a@.subrange(0, i + 1) =~= a@.subrange(0, i as int).push(x));
            a@.subrange(0, i as int).lemma_push_to_set_commute(x);
            assert(out@.to_set() =~= a@.subrange(0, i + 1).to_set().difference(b@.to_set()));
        }
        i += 1;
    }
    proof {
        assert(a@.subrange(0, i as int) =~= a@);
    }
    out
}

fn union_of_successors(ins: &Vec<Vec<VirtualRegister>>, ss: &Vec<usize>) -> (r: Vec<VirtualRegister>)
    requires
        forall|k: int| 0 <= k < ss@.len() ==> #[trigger] ss@[k] < ins@.len(),
    ensures
        r@.no_duplicates(),
        r@.to_set() == union_over(set_seq(ins@), ss@),
{
    let mut out: Vec<VirtualRegister> = Vec::new();
    let mut k: usize = 0;
    while k < ss.len()
        invariant
            k <= ss@.len(),
            forall|q: int| 0 <= q < ss@.len() ==> #[trigger] ss@[q] < ins@.len(),
            out@.no_duplicates(),
            out@.to_set() == union_over(set_seq(ins@), ss@.subrange(0, k as int)),
        decreases ss.len() - k,
    {
        proof {
            assert(ss@.subrange(0, k + 1).drop_last() =~= ss@.subrange(0, k as int));
            assert(ss@[k as int] < ins@.len());
        }
        union_into(&mut out, &ins[ss[k]]);
        k += 1;
    }
    proof {
        assert(ss@.subrange(0, k as int) =~= ss@);
    }
    out
}

proof fn lemma_no_dup_len(v: Seq<VirtualRegister>)
    requires
        v.no_duplicates(),
    ensures
        v.to_set().len() == v.len(),
        v.to_set().finite(),
{
    v.unique_seq_to_set();
}

/// Solves the liveness equations over points `0..n`: `succ[i]` lists the
/// points that may run right after `i`, `uses[i]` and `defs[i]` the
/// registers point `i` reads and assigns. Starting from empty sets, the
/// equations are applied point by point, last point first, until a whole
/// pass changes nothing; the result is the smallest solution: its sets are
/// contained in those of every solution. Returns the
/// live-in and the live-out sets.
pub fn compute_liveness(
    succ: &Vec<Vec<usize>>,
    uses: &Vec<Vec<VirtualRegister>>,
    defs: &Vec<Vec<VirtualRegister>>,
) -> (r: (Vec<Vec<VirtualRegister>>, Vec<Vec<VirtualRegister>>))
    requires
        uses@.len() == succ@.len(),
        defs@.len() == succ@.len(),
        forall|i: int, k: int| 0 <= i < succ@.len() && 0 <= k < succ@[i]@.len() ==> #[trigger] succ@[i]@[k] < succ@.len(),
        forall|i: int| 0 <= i < uses@.len() ==> (#[trigger] uses@[i])@.no_duplicates(),
    ensures
        solves(set_seq(r.0@), set_seq(r.1@), Seq::new(succ@.len(), |i: int| succ@[i]@), set_seq(uses@), set_seq(defs@)),
        forall|si: Seq<Set<VirtualRegister>>, so: Seq<Set<VirtualRegister>>|
            #[trigger] solves(si, so, succ_seq(succ@), set_seq(uses@), set_seq(defs@))
                ==> within_solution(set_seq(r.0@), set_seq(r.1@), si, so),
        forall|i: int| 0 <= i < r.0@.len() ==> (#[trigger] r.0@[i])@.no_duplicates(),
        forall|i: int| 0 <= i < r.1@.len() ==> (#[trigger] r.1@[i])@.no_duplicates(),
{
    let n = succ.len();
    let ghost sv = Seq::new(succ@.len(), |i: int| succ@[i]@);
    assert(succ_seq(succ@) == sv);
    let ghost us = set_seq(uses@);
    let ghost ds = set_seq(defs@);
    let ghost u = all_uses(us);
    proof {
        assert forall|j: int| 0 <= j < us.len() implies (#[trigger] us[j]).finite() by {
            lemma_no_dup_len(uses@[j]@);
        }
        lemma_all_uses_finite(us);
        assert forall|i: int, k: int| 0 <= i < sv.len() && 0 <= k < sv[i].len() implies #[trigger] sv[i][k] < sv.len() by {
            assert(succ@[i]@[k] < succ@.len());
        }
    }
    let mut ins: Vec<Vec<VirtualRegister>> = Vec::new();
    let mut outs: Vec<Vec<VirtualRegister>> = Vec::new();
    let mut i: usize = 0;
    while i < n
        invariant
            n == succ@.len(),
            i <= n,
            ins@.len() == i,
            outs@.len() == i,
            forall|j: int| 0 <= j < i ==> (#[trigger] ins@[j])@ == Seq::<VirtualRegister>::empty(),
            forall|j: int| 0 <= j < i ==> (#[trigger] outs@[j])@ == Seq::<VirtualRegister>::empty(),
        decreases n - i,
    {
        ins.push(Vec::new());
        outs.push(Vec::new());
        i += 1;
    }
    proof {
        assert forall|j: int| 0 <= j < n implies (#[trigger] set_seq(ins@)[j]).subset_of(in_of(set_seq(ins@), sv, us, ds, j))
            && set_seq(outs@)[j].subset_of(out_of(set_seq(ins@), sv, j)) by {
            assert(set_seq(ins@)[j] =~= Set::empty());
            assert(set_seq(outs@)[j] =~= Set::empty());
        }
        assert forall|j: int| 0 <= j < n implies (#[trigger] set_seq(ins@)[j]).subset_of(u) by {
            assert(set_seq(ins@)[j] =~= Set::empty());
        }
        assert forall|j: int| 0 <= j < n implies (#[trigger] set_seq(outs@)[j]).subset_of(u) by {
            assert(set_seq(outs@)[j] =~= Set::empty());
        }
        assert forall|si: Seq<Set<VirtualRegister>>, so: Seq<Set<VirtualRegister>>|
            #[trigger] solves(si, so, sv, us, ds) implies within_solution(set_seq(ins@), set_seq(outs@), si, so) by {
            assert forall|j: int| 0 <= j < set_seq(ins@).len() implies (#[trigger] set_seq(ins@)[j]).subset_of(si[j])
                && set_seq(outs@)[j].subset_of(so[j]) by {
                assert(set_seq(ins@)[j] =~= Set::empty());
                assert(set_seq(outs@)[j] =~= Set::empty());
            }
        }
    }
    let mut changed = true;
    while changed
        invariant
            n == succ@.len(),
            sv == Seq::new(succ@.len(), |i: int| succ@[i]@),
            succ_in_range(sv),
            us == set_seq(uses@),
            ds == set_seq(defs@),
            u == all_uses(us),
            u.finite(),
            uses@.len() == n,
            defs@.len() == n,
            forall|j: int| 0 <= j < uses@.len() ==> (#[trigger] uses@[j])@.no_duplicates(),
            ins@.len() == n,
            outs@.len() == n,
            forall|j: int| 0 <= j < n ==> (#[trigger] ins@[j])@.no_duplicates(),
            forall|j: int| 0 <= j < n ==> (#[trigger] outs@[j])@.no_duplicates(),
            below(set_seq(ins@), set_seq(outs@), sv, us, ds),
            within(set_seq(ins@), u),
            within(set_seq(outs@), u),
            forall|si: Seq<Set<VirtualRegister>>, so: Seq<Set<VirtualRegister>>|
                #[trigger] solves(si, so, sv, us, ds) ==> within_solution(set_seq(ins@), set_seq(outs@), si, so),
            !changed ==> solves(set_seq(ins@), set_seq(outs@), sv, us, ds),
        decreases deficit(set_seq(ins@), u) + deficit(set_seq(outs@), u) + if changed { 1nat } else { 0nat },
    {
        changed = false;
        let ghost start_ins = set_seq(ins@);
        let ghost start_outs = set_seq(outs@);
        let ghost start_measure = deficit(start_ins, u) + deficit(start_outs, u);
        let mut idx: usize = n;
        while idx > 0
            invariant
                n == succ@.len(),
                sv == Seq::new(succ@.len(), |i: int| succ@[i]@),
                succ_in_range(sv),
                us == set_seq(uses@),
                ds == set_seq(defs@),
                u == all_uses(us),
                u.finite(),
                uses@.len() == n,
                defs@.len() == n,
                forall|j: int| 0 <= j < uses@.len() ==> (#[trigger] uses@[j])@.no_duplicates(),
                idx <= n,
                ins@.len() == n,
                outs@.len() == n,
                forall|j: int| 0 <= j < n ==> (#[trigger] ins@[j])@.no_duplicates(),
                forall|j: int| 0 <= j < n ==> (#[trigger] outs@[j])@.no_duplicates(),
                below(set_seq(ins@), set_seq(outs@), sv, us, ds),
                within(set_seq(ins@), u),
                within(set_seq(outs@), u),
                forall|si: Seq<Set<VirtualRegister>>, so: Seq<Set<VirtualRegister>>|
                    #[trigger] solves(si, so, sv, us, ds) ==> within_solution(set_seq(ins@), set_seq(outs@), si, so),
                deficit(set_seq(ins@), u) + deficit(set_seq(outs@), u) <= start_measure,
                changed ==> deficit(set_seq(ins@), u) + deficit(set_seq(outs@), u) < start_measure,
                !changed ==> set_seq(ins@) == start_ins && set_seq(outs@) == start_outs,
                !changed ==> forall|j: int| idx <= j < n ==> #[trigger] set_seq(outs@)[j] == out_of(set_seq(ins@), sv, j)
                    && set_seq(ins@)[j] == in_of(set_seq(ins@), sv, us, ds, j),
            decreases idx,
        {
            let a = idx - 1;
            let ghost xi = set_seq(ins@);
            let ghost xo = set_seq(outs@);
            proof {
                assert forall|k: int| 0 <= k < succ@[a as int]@.len() implies #[trigger] succ@[a as int]@[k] < ins@.len() by {
                    assert(sv[a as int][k] == succ@[a as int]@[k]);
                }
            }
            let out_new = union_of_successors(&ins, &succ[a]);
            let kept = minus(&out_new, &defs[a]);
            let mut in_new = copy_regs(&uses[a]);
            union_into(&mut in_new, &kept);
            proof {
                assert(succ@[a as int]@ == sv[a as int]);
                assert(set_seq(ins@) == xi);
                assert(out_new@.to_set() == out_of(xi, sv, a as int));
                assert(in_new@.to_set() == in_of(xi, sv, us, ds, a as int)) by {
                    assert(us[a as int] == uses@[a as int]@.to_set());
                    assert(ds[a as int] == defs@[a as int]@.to_set());
                }
                lemma_union_within(xi, sv[a as int], u);
                lemma_all_uses(us, a as int);
                lemma_no_dup_len(in_new@);
                lemma_no_dup_len(out_new@);
                lemma_no_dup_len(ins@[a as int]@);
                lemma_no_dup_len(outs@[a as int]@);
                assert(xi[a as int] == ins@[a as int]@.to_set());
                assert(xo[a as int] == outs@[a as int]@.to_set());
            }
            let grew = in_new.len() != ins[a].len() || out_new.len() != outs[a].len();
            proof {
                if !grew {
                    lemma_subset_equality(xi[a as int], in_new@.to_set());
                    lemma_subset_equality(xo[a as int], out_new@.to_set());
                }
            }
            let ghost new_in_set = in_new@.to_set();
            let ghost new_out_set = out_new@.to_set();
            ins.set(a, in_new);
            outs.set(a, out_new);
            proof {
                assert(set_seq(ins@) =~= xi.update(a as int, new_in_set));
                assert(set_seq(outs@) =~= xo.update(a as int, new_out_set));
                let yi = set_seq(ins@);
                let yo = set_seq(outs@);
                lemma_deficit_update(xi, u, a as int, new_in_set);
                lemma_deficit_update(xo, u, a as int, new_out_set);
                assert forall|j: int| 0 <= j < n implies (#[trigger] xi[j]).subset_of(yi[j]) by {}
                assert forall|j: int| 0 <= j < n implies (#[trigger] yi[j]).subset_of(in_of(yi, sv, us, ds, j))
                    && yo[j].subset_of(out_of(yi, sv, j)) by {
                    lemma_union_mono(xi, yi, sv[j]);
                }
                assert forall|j: int| 0 <= j < n implies (#[trigger] yi[j]).subset_of(u) by {}
                assert forall|j: int| 0 <= j < n implies (#[trigger] yo[j]).subset_of(u) by {}
                assert forall|si: Seq<Set<VirtualRegister>>, so: Seq<Set<VirtualRegister>>|
                    #[trigger] solves(si, so, sv, us, ds) implies within_solution(yi, yo, si, so) by {
                    assert(within_solution(xi, xo, si, so));
                    assert forall|j: int| 0 <= j < xi.len() implies (#[trigger] xi[j]).subset_of(si[j]) by {}
                    lemma_union_mono(xi, si, sv[a as int]);
                    assert(so[a as int] == out_of(si, sv, a as int));
                    assert(si[a as int] == in_of(si, sv, us, ds, a as int));
                    assert(yi.len() == xi.len());
                    assert forall|j: int| 0 <= j < yi.len() implies (#[trigger] yi[j]).subset_of(si[j]) && yo[j].subset_of(so[j]) by {
                        if j != a {
                            assert(yi[j] == xi[j] && yo[j] == xo[j]);
                            assert(xi[j].subset_of(si[j]));
                            assert(xo[j].subset_of(so[j]));
                        } else {
                            assert(yo[j] == out_of(xi, sv, a as int));
                            assert(yi[j] == in_of(xi, sv, us, ds, a as int));
                        }
                    }
                }
                if !grew && !changed {
                    assert(yi =~= xi);
                    assert(yo =~= xo);
                }
            }
            if grew {
                changed = true;
            }
            idx = a;
        }
        proof {
            if !changed {
                assert forall|j: int| 0 <= j < sv.len() implies #[trigger] set_seq(outs@)[j] == out_of(set_seq(ins@), sv, j) by {}
                assert forall|j: int| 0 <= j < sv.len() implies #[trigger] set_seq(ins@)[j] == in_of(set_seq(ins@), sv, us, ds, j) by {}
            }
        }
    }
    (ins, outs)
}

/// A copy of a list of registers.
fn copy_regs(v: &Vec<VirtualRegister>) -> (r: Vec<VirtualRegister>)
    ensures
        r@ == v@,
{
    crate::lifetime_analyzer::domain::copy_registers(v)
}

} // verus!
