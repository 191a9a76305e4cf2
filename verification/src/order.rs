//! Strict orders on the small value types of the compiler (addresses and
//! registers), and listing a collection's distinct values in increasing
//! order, as the printers do.
use vstd::prelude::*;
use crate::control_flow::graph::lemma_push_contains;
use crate::lifetime_analyzer::domain::{address_before, IRAddress};
use crate::physical_register::PhysicalRegister;
use crate::virtual_register::VirtualRegister;

verus! {

/// A strict total order with an executable comparison.
pub trait StrictOrder: Sized + Copy {
    spec fn before(self, other: Self) -> bool;

    /// Irreflexive, transitive and total.
    proof fn order_laws()
        ensures
            forall|a: Self| !#[trigger] a.before(a),
            forall|a: Self, b: Self, c: Self| #[trigger] a.before(b) && #[trigger] b.before(c) ==> a.before(c),
            forall|a: Self, b: Self| a != b ==> #[trigger] a.before(b) || #[trigger] b.before(a),
    ;

    fn is_before(&self, other: &Self) -> (r: bool)
        ensures
            r == self.before(*other),
    ;
}

impl StrictOrder for IRAddress {
    /// By block, then by position.
    open spec fn before(self, other: Self) -> bool {
        address_before(self, other)
    }

    proof fn order_laws() {
    }

    fn is_before(&self, other: &Self) -> (r: bool) {
        self.id < other.id || (self.id == other.id && self.offset < other.offset)
    }
}

impl StrictOrder for VirtualRegister {
    /// By id, then plain registers before stored ones.
    open spec fn before(self, other: Self) -> bool {
        self.id < other.id || (self.id == other.id && !self.stored && other.stored)
    }

    proof fn order_laws() {
    }

    fn is_before(&self, other: &Self) -> (r: bool) {
        self.id < other.id || (self.id == other.id && !self.stored && other.stored)
    }
}

impl StrictOrder for PhysicalRegister {
    /// By encoding number, which is the order of declaration.
    open spec fn before(self, other: Self) -> bool {
        self.spec_id() < other.spec_id()
    }

    proof fn order_laws() {
        assert forall|a: PhysicalRegister, b: PhysicalRegister| a != b implies #[trigger] a.before(b) || #[trigger] b.before(a) by {
            assert(a.spec_id() != b.spec_id());
        }
    }

    fn is_before(&self, other: &Self) -> (r: bool) {
        self.id() < other.id()
    }
}

/// Strictly increasing.
pub open spec fn ascending<T: StrictOrder>(s: Seq<T>) -> bool {
    forall|i: int, j: int| 0 <= i < j < s.len() ==> (#[trigger] s[i]).before(#[trigger] s[j])
}

/// The distinct values of a finite set in increasing order.
pub open spec fn in_order<T: StrictOrder>(s: Set<T>) -> Seq<T> {
    choose|q: Seq<T>| ascending(q) && q.to_set() == s
}

/// Two increasing sequences with the same values are equal.
pub proof fn lemma_ascending_unique<T: StrictOrder>(a: Seq<T>, b: Seq<T>)
    requires
        ascending(a),
        ascending(b),
        forall|x: T| a.contains(x) <==> b.contains(x),
    ensures
        a == b,
    decreases a.len() + b.len(),
{
    T::order_laws();
    if a.len() == 0 {
        if b.len() > 0 {
            assert(b.contains(b[0]));
        }
        assert(a =~= b);
    } else if b.len() == 0 {
        assert(a.contains(a[0]));
    } else {
        assert(a.contains(a[0]));
        assert(b.contains(b[0]));
        let i = choose|i: int| 0 <= i < b.len() && b[i] == a[0];
        let j = choose|j: int| 0 <= j < a.len() && a[j] == b[0];
        if a[0] != b[0] {
            assert(i > 0 && j > 0);
            assert(b[0].before(b[i]));
            assert(a[0].before(a[j]));
            assert(a[0].before(a[0]));
        }
        let ta = a.drop_first();
        let tb = b.drop_first();
        assert forall|x: T| ta.contains(x) <==> tb.contains(x) by {
            if ta.contains(x) {
                let k = choose|k: int| 0 <= k < ta.len() && ta[k] == x;
                assert(a[0].before(a[k + 1]));
                assert(a.contains(x));
                let m = choose|m: int| 0 <= m < b.len() && b[m] == x;
                if m == 0 {
                    assert(x == a[0]);
                }
                assert(tb[m - 1] == x);
            }
            if tb.contains(x) {
                let k = choose|k: int| 0 <= k < tb.len() && tb[k] == x;
                assert(b[0].before(b[k + 1]));
                assert(b.contains(x));
                let m = choose|m: int| 0 <= m < a.len() && a[m] == x;
                if m == 0 {
                    assert(x == b[0]);
                }
                assert(ta[m - 1] == x);
            }
        }
        assert forall|p: int, q: int| 0 <= p < q < ta.len() implies (#[trigger] ta[p]).before(#[trigger] ta[q]) by {
            assert(a[p + 1].before(a[q + 1]));
        }
        assert forall|p: int, q: int| 0 <= p < q < tb.len() implies (#[trigger] tb[p]).before(#[trigger] tb[q]) by {
            assert(b[p + 1].before(b[q + 1]));
        }
        lemma_ascending_unique(ta, tb);
        assert(a[0] == b[0]);
        assert(a.len() == b.len());
        assert forall|k: int| 0 <= k < a.len() implies a[k] == b[k] by {
            if k > 0 {
                assert(a[k] == ta[k - 1]);
                assert(b[k] == tb[k - 1]);
            }
        }
        assert(a =~= b);
    }
}

/// An increasing sequence is the ordered listing of its values.
pub proof fn lemma_in_order<T: StrictOrder>(q: Seq<T>)
    requires
        ascending(q),
    ensures
        in_order(q.to_set()) == q,
{
    let s = q.to_set();
    assert(exists|p: Seq<T>| ascending(p) && p.to_set() == s) by {
        assert(ascending(q) && q.to_set() == s);
    }
    let p = in_order(s);
    assert forall|x: T| p.contains(x) <==> q.contains(x) by {
        assert(p.to_set().contains(x) == p.contains(x));
        assert(q.to_set().contains(x) == q.contains(x));
    }
    lemma_ascending_unique(p, q);
}

proof fn lemma_insert_contains<T>(s: Seq<T>, p: int, x: T, y: T)
    requires
        0 <= p <= s.len(),
    ensures
        s.insert(p, x).contains(y) <==> (s.contains(y) || y == x),
{
    let t = s.insert(p, x);
    if t.contains(y) {
        let k = choose|k: int| 0 <= k < t.len() && t[k] == y;
        if k < p {
            assert(s[k] == y);
        } else if k > p {
            assert(s[k - 1] == y);
        }
    }
    if s.contains(y) {
        let k = choose|k: int| 0 <= k < s.len() && s[k] == y;
        if k < p {
            assert(t[k] == y);
        } else {
            assert(t[k + 1] == y);
        }
    }
    if y == x {
        assert(t[p] == x);
    }
}

/// The distinct values of `v` in increasing order.
pub fn sorted_unique<T: StrictOrder>(v: &Vec<T>) -> (r: Vec<T>)
    ensures
        r@ == in_order(v@.to_set()),
        ascending(r@),
        forall|x: T| r@.contains(x) <==> v@.contains(x),
{
    proof {
        T::order_laws();
    }
    let mut out: Vec<T> = Vec::new();
    let mut i: usize = 0;
    while i < v.len()
        invariant
            i <= v@.len(),
            ascending(out@),
            forall|x: T| out@.contains(x) <==> v@.subrange(0, i as int).contains(x),
        decreases v.len() - i,
    {
        proof {
            T::order_laws();
        }
        let x = v[i];
        let mut p: usize = 0;
        while p < out.len() && out[p].is_before(&x)
            invariant
                p <= out@.len(),
                forall|k: int| 0 <= k < p ==> (#[trigger] out@[k]).before(x),
            decreases out.len() - p,
        {
            p += 1;
        }
        let present = p < out.len() && !x.is_before(&out[p]);
        let ghost old_out = out@;
        if !present {
            out.insert(p, x);
            proof {
                assert forall|a: int, b: int| 0 <= a < b < out@.len() implies (#[trigger] out@[a]).before(#[trigger] out@[b]) by {
                    if b < p {
                        assert(old_out[a].before(old_out[b]));
                    } else if b == p {
                        assert(old_out[a].before(x));
                    } else if a < p {
                        assert(old_out[a].before(x));
                        if b - 1 > p {
                            assert(old_out[p as int].before(old_out[b - 1]));
                        }
                        assert(x.before(old_out[p as int]) || x == old_out[p as int]);
                    } else if a == p {
                        if b - 1 > p {
                            assert(old_out[p as int].before(old_out[b - 1]));
                        }
                    } else {
                        assert(old_out[a - 1].before(old_out[b - 1]));
                    }
                }
            }
        } else {
            proof {
                assert(old_out[p as int] == x);
            }
        }
        proof {
            let pre = v@.subrange(0, i as int);
            let post = v@.subrange(0, i + 1);
            assert(post =~= pre.push(x));
            assert forall|y: T| out@.contains(y) <==> post.contains(y) by {
                lemma_push_contains(pre, x, y);
                if !present {
                    lemma_insert_contains(old_out, p as int, x, y);
                } else {
                    assert(old_out[p as int] == x);
                }
            }
        }
        i += 1;
    }
    proof {
        assert(v@.subrange(0, i as int) =~= v@);
        assert(out@.to_set() =~= v@.to_set()) by {
            assert forall|y: T| out@.to_set().contains(y) <==> v@.to_set().contains(y) by {
                assert(out@.to_set().contains(y) == out@.contains(y));
                assert(v@.to_set().contains(y) == v@.contains(y));
            }
        }
        lemma_in_order(out@);
    }
    out
}

} // verus!
