//! What the lifetime analysis produces: where each register is assigned and
//! read, the registers live before and after each of those places, and which
//! registers are live together.
use vstd::prelude::*;
use crate::virtual_register::VirtualRegister;

verus! {

/// A place in a function: a block id and a node position in the block.
#[derive(Debug, Clone, Copy, PartialEq, Eq, Hash, PartialOrd, Ord, Structural)]
pub struct IRAddress {
    pub id: usize,
    pub offset: usize,
}

/// The order of addresses: by block, then by position.
pub open spec fn address_before(a: IRAddress, b: IRAddress) -> bool {
    a.id < b.id || (a.id == b.id && a.offset < b.offset)
}

impl IRAddress {
    pub fn new(id: usize, offset: usize) -> (r: Self)
        ensures
            r.id == id,
            r.offset == offset,
    {
        IRAddress { id, offset }
    }

    /// The address one node earlier in the same block (the first position
    /// stays where it is).
    pub fn prev(&self) -> (r: Self)
        ensures
            r.id == self.id,
            r.offset == if self.offset == 0 { 0 } else { (self.offset - 1) as usize },
    {
        IRAddress { id: self.id, offset: self.offset.saturating_sub(1) }
    }
}

/// Where a register is read and where it is assigned.
#[derive(Debug, PartialEq)]
pub struct LifetimeElement {
    pub reg: VirtualRegister,
    pub references: Vec<IRAddress>,
    pub assigns: Vec<IRAddress>,
}

fn copy_addresses(v: &Vec<IRAddress>) -> (r: Vec<IRAddress>)
    ensures
        r@ == v@,
{
    let mut out: Vec<IRAddress> = Vec::new();
    let mut i: usize = 0;
    while i < v.len()
        invariant
            i <= v@.len(),
            out@ == v@.subrange(0, i as int),
        decreases v.len() - i,
    {
        out.push(v[i]);
        i += 1;
        proof {
            assert(out@ =~= v@.subrange(0, i as int));
        }
    }
    proof {
        assert(v@.subrange(0, i as int) =~= v@);
    }
    out
}

/// A copy of a list of registers.
pub fn copy_registers(v: &Vec<VirtualRegister>) -> (r: Vec<VirtualRegister>)
    ensures
        r@ == v@,
{
    let mut out: Vec<VirtualRegister> = Vec::new();
    let mut i: usize = 0;
    while i < v.len()
        invariant
            i <= v@.len(),
            out@ == v@.subrange(0, i as int),
        decreases v.len() - i,
    {
        out.push(v[i]);
        i += 1;
        proof {
            assert(out@ =~= v@.subrange(0, i as int));
        }
    }
    proof {
        assert(v@.subrange(0, i as int) =~= v@);
    }
    out
}

impl Clone for LifetimeElement {
    fn clone(&self) -> (r: Self)
        ensures
            r.reg == self.reg,
            r.references@ == self.references@,
            r.assigns@ == self.assigns@,
    {
        LifetimeElement {
            reg: self.reg,
            references: copy_addresses(&self.references),
            assigns: copy_addresses(&self.assigns),
        }
    }
}

/// The registers live at each address, one entry per address.
pub type LiveSets = Vec<(IRAddress, Vec<VirtualRegister>)>;

fn copy_live_sets(v: &LiveSets) -> (r: LiveSets)
    ensures
        r@.len() == v@.len(),
        forall|k: int| 0 <= k < v@.len() ==> (#[trigger] r@[k]).0 == v@[k].0 && r@[k].1@ == v@[k].1@,
{
    let mut out: LiveSets = Vec::new();
    let mut i: usize = 0;
    while i < v.len()
        invariant
            i <= v@.len(),
            out@.len() == i,
            forall|k: int| 0 <= k < i ==> (#[trigger] out@[k]).0 == v@[k].0 && out@[k].1@ == v@[k].1@,
        decreases v.len() - i,
    {
        out.push((v[i].0, copy_registers(&v[i].1)));
        i += 1;
    }
    out
}

/// The lifetimes of one function.
#[derive(Debug, PartialEq)]
pub struct FunctionLifetime {
    pub name: String,
    pub elements: Vec<LifetimeElement>,
    /// Registers live just before each address, sorted by address.
    pub live_in: LiveSets,
    /// Registers live just after each address, sorted by address.
    pub live_out: LiveSets,
}

impl Clone for FunctionLifetime {
    fn clone(&self) -> (r: Self)
        ensures
            r.name == self.name,
            r.elements@.len() == self.elements@.len(),
            forall|k: int| 0 <= k < self.elements@.len() ==> {
                let a = #[trigger] r.elements@[k];
                let b = self.elements@[k];
                a.reg == b.reg && a.references@ == b.references@ && a.assigns@ == b.assigns@
            },
            r.live_in@.len() == self.live_in@.len(),
            forall|k: int| 0 <= k < self.live_in@.len() ==> (#[trigger] r.live_in@[k]).0 == self.live_in@[k].0 && r.live_in@[k].1@ == self.live_in@[k].1@,
            r.live_out@.len() == self.live_out@.len(),
            forall|k: int| 0 <= k < self.live_out@.len() ==> (#[trigger] r.live_out@[k]).0 == self.live_out@[k].0 && r.live_out@[k].1@ == self.live_out@[k].1@,
    {
        let mut elements: Vec<LifetimeElement> = Vec::new();
        let mut i: usize = 0;
        while i < self.elements.len()
            invariant
                i <= self.elements@.len(),
                elements@.len() == i,
                forall|k: int| 0 <= k < i ==> {
                    let a = #[trigger] elements@[k];
                    let b = self.elements@[k];
                    a.reg == b.reg && a.references@ == b.references@ && a.assigns@ == b.assigns@
                },
            decreases self.elements.len() - i,
        {
            elements.push(self.elements[i].clone());
            i += 1;
        }
        FunctionLifetime {
            name: self.name.clone(),
            elements,
            live_in: copy_live_sets(&self.live_in),
            live_out: copy_live_sets(&self.live_out),
        }
    }
}

/// The lifetimes of every function of a module, in module order.
#[derive(Debug, PartialEq)]
pub struct LifetimeTable {
    pub functions: Vec<FunctionLifetime>,
}

/// Two lists of live sets with the same addresses and registers, entry by
/// entry.
pub open spec fn same_live_sets(a: Seq<(IRAddress, Vec<VirtualRegister>)>, b: Seq<(IRAddress, Vec<VirtualRegister>)>) -> bool {
    a.len() == b.len() && forall|k: int| 0 <= k < a.len() ==> (#[trigger] a[k]).0 == b[k].0 && a[k].1@ == b[k].1@
}

impl Clone for LifetimeTable {
    fn clone(&self) -> (r: Self)
        ensures
            r.functions@.len() == self.functions@.len(),
            forall|k: int| 0 <= k < self.functions@.len() ==> (#[trigger] r.functions@[k]).name == self.functions@[k].name,
            forall|k: int| 0 <= k < self.functions@.len() ==> same_live_sets((#[trigger] r.functions@[k]).live_in@, self.functions@[k].live_in@),
    {
        let mut functions: Vec<FunctionLifetime> = Vec::new();
        let mut i: usize = 0;
        while i < self.functions.len()
            invariant
                i <= self.functions@.len(),
                functions@.len() == i,
                forall|k: int| 0 <= k < i ==> (#[trigger] functions@[k]).name == self.functions@[k].name,
                forall|k: int| 0 <= k < i ==> same_live_sets((#[trigger] functions@[k]).live_in@, self.functions@[k].live_in@),
            decreases self.functions.len() - i,
        {
            functions.push(self.functions[i].clone());
            i += 1;
        }
        LifetimeTable { functions }
    }
}

/// Pairs of registers live at the same time, and each register's partners.
#[derive(Debug, PartialEq)]
pub struct LifetimeOverlaps {
    /// Each pair once.
    pub overlaps: Vec<(VirtualRegister, VirtualRegister)>,
    /// Each register that occurs in a pair once, with its partners.
    pub overlaps_by_register: Vec<(VirtualRegister, Vec<VirtualRegister>)>,
}

/// Two registers occur together in the live-in set of some address, the
/// first one earlier in the set.
pub open spec fn live_together(live_in: Seq<(IRAddress, Vec<VirtualRegister>)>, x: VirtualRegister, y: VirtualRegister) -> bool {
    exists|k: int, i: int, j: int|
        0 <= k < live_in.len() && 0 <= i < j < live_in[k].1@.len() && #[trigger] live_in[k].1@[i] == x
            && #[trigger] live_in[k].1@[j] == y
}

/// `y` is a partner of `x` in a list of pairs.
pub open spec fn paired(pairs: Seq<(VirtualRegister, VirtualRegister)>, x: VirtualRegister, y: VirtualRegister) -> bool {
    pairs.contains((x, y)) || pairs.contains((y, x))
}

/// `r` occurs in some pair.
pub open spec fn in_some_pair(pairs: Seq<(VirtualRegister, VirtualRegister)>, r: VirtualRegister) -> bool {
    exists|k: int| 0 <= k < pairs.len() && (#[trigger] pairs[k].0 == r || pairs[k].1 == r)
}

impl FunctionLifetime {
    /// The pairs of registers that are live together before some address.
    pub fn get_overlaps(&self) -> (r: LifetimeOverlaps)
        ensures
            r.overlaps@.no_duplicates(),
            forall|x: VirtualRegister, y: VirtualRegister| #[trigger] r.overlaps@.contains((x, y)) <==> live_together(self.live_in@, x, y),
            forall|x: VirtualRegister, y: VirtualRegister| #[trigger] r.partners(x).contains(y) <==> paired(r.overlaps@, x, y),
            forall|x: VirtualRegister| #[trigger] r.has_partners(x) <==> in_some_pair(r.overlaps@, x),
            (forall|k: int| 0 <= k < self.live_in@.len() ==> (#[trigger] self.live_in@[k]).1@.no_duplicates())
                ==> forall|x: VirtualRegister, y: VirtualRegister| #[trigger] r.overlaps@.contains((x, y)) ==> x != y,
    {
        let mut overlaps: Vec<(VirtualRegister, VirtualRegister)> = Vec::new();
        let mut k: usize = 0;
        while k < self.live_in.len()
            invariant
                k <= self.live_in@.len(),
                overlaps@.no_duplicates(),
                forall|x: VirtualRegister, y: VirtualRegister| #[trigger] overlaps@.contains((x, y)) <==> live_together(self.live_in@.subrange(0, k as int), x, y),
            decreases self.live_in.len() - k,
        {
            let regs = &self.live_in[k].1;
            let mut i: usize = 0;
            while i < regs.len()
                invariant
                    k < self.live_in@.len(),
                    *regs == self.live_in@[k as int].1,
                    i <= regs@.len(),
                    overlaps@.no_duplicates(),
                    forall|x: VirtualRegister, y: VirtualRegister| #[trigger] overlaps@.contains((x, y)) <==> (live_together(self.live_in@.subrange(0, k as int), x, y)
                        || exists|a: int, b: int| 0 <= a < i && a < b < regs@.len() && #[trigger] regs@[a] == x && #[trigger] regs@[b] == y),
                decreases regs.len() - i,
            {
                let mut j: usize = i + 1;
                while j < regs.len()
                    invariant
                        k < self.live_in@.len(),
                        *regs == self.live_in@[k as int].1,
                        i < regs@.len(),
                        i + 1 <= j <= regs@.len(),
                        overlaps@.no_duplicates(),
                        forall|x: VirtualRegister, y: VirtualRegister| #[trigger] overlaps@.contains((x, y)) <==> (live_together(self.live_in@.subrange(0, k as int), x, y)
                            || (exists|a: int, b: int| 0 <= a < i && a < b < regs@.len() && #[trigger] regs@[a] == x && #[trigger] regs@[b] == y)
                            || (x == regs@[i as int] && exists|b: int| i < b < j && #[trigger] regs@[b] == y)),
                    decreases regs.len() - j,
                {
                    let pair = (regs[i], regs[j]);
                    let ghost before = overlaps@;
                    if !contains_pair(&overlaps, pair) {
                        overlaps.push(pair);
                    }
                    proof {
                        assert forall|x: VirtualRegister, y: VirtualRegister| #[trigger] overlaps@.contains((x, y)) <==> (live_together(self.live_in@.subrange(0, k as int), x, y)
                            || (exists|a: int, b: int| 0 <= a < i && a < b < regs@.len() && #[trigger] regs@[a] == x && #[trigger] regs@[b] == y)
                            || (x == regs@[i as int] && exists|b: int| i < b < j + 1 && #[trigger] regs@[b] == y)) by {
                            crate::control_flow::graph::lemma_push_contains(before, pair, (x, y));
                            if x == regs@[i as int] && y == regs@[j as int] {
                                assert(overlaps@.contains((x, y)));
                            }
                            if x == regs@[i as int] && exists|b: int| i < b < j + 1 && #[trigger] regs@[b] == y {
                                let b = choose|b: int| i < b < j + 1 && #[trigger] regs@[b] == y;
                                if b < j {
                                    assert(before.contains((x, y)));
                                }
                            }
                        }
                    }
                    j += 1;
                }
                proof {
                    assert forall|x: VirtualRegister, y: VirtualRegister| #[trigger] overlaps@.contains((x, y)) <==> (live_together(self.live_in@.subrange(0, k as int), x, y)
                        || exists|a: int, b: int| 0 <= a < i + 1 && a < b < regs@.len() && #[trigger] regs@[a] == x && #[trigger] regs@[b] == y) by {
                        if exists|a: int, b: int| 0 <= a < i + 1 && a < b < regs@.len() && #[trigger] regs@[a] == x && #[trigger] regs@[b] == y {
                            let (a, b) = choose|a: int, b: int| 0 <= a < i + 1 && a < b < regs@.len() && #[trigger] regs@[a] == x && #[trigger] regs@[b] == y;
                            if a == i {
                                assert(x == regs@[i as int] && exists|b: int| i < b < j && #[trigger] regs@[b] == y);
                            }
                        }
                    }
                }
                i += 1;
            }
            proof {
                let sub = self.live_in@.subrange(0, k + 1);
                assert forall|x: VirtualRegister, y: VirtualRegister| #[trigger] overlaps@.contains((x, y)) <==> live_together(sub, x, y) by {
                    if live_together(sub, x, y) {
                        let (kk, a, b) = choose|kk: int, a: int, b: int|
                            0 <= kk < sub.len() && 0 <= a < b < sub[kk].1@.len() && #[trigger] sub[kk].1@[a] == x
                                && #[trigger] sub[kk].1@[b] == y;
                        if kk < k {
                            assert(self.live_in@.subrange(0, k as int)[kk] == sub[kk]);
                            assert(live_together(self.live_in@.subrange(0, k as int), x, y));
                        } else {
                            assert(regs@[a] == x && regs@[b] == y);
                        }
                    }
                    if live_together(self.live_in@.subrange(0, k as int), x, y) {
                        let (kk, a, b) = choose|kk: int, a: int, b: int|
                            0 <= kk < k && 0 <= a < b < self.live_in@.subrange(0, k as int)[kk].1@.len() && #[trigger] self.live_in@.subrange(0, k as int)[kk].1@[a] == x
                                && #[trigger] self.live_in@.subrange(0, k as int)[kk].1@[b] == y;
                        assert(sub[kk] == self.live_in@.subrange(0, k as int)[kk]);
                        assert(sub[kk].1@[a] == x && sub[kk].1@[b] == y);
                    }
                    if exists|a: int, b: int| 0 <= a < i && a < b < regs@.len() && #[trigger] regs@[a] == x && #[trigger] regs@[b] == y {
                        let (a, b) = choose|a: int, b: int| 0 <= a < i && a < b < regs@.len() && #[trigger] regs@[a] == x && #[trigger] regs@[b] == y;
                        assert(sub[k as int] == self.live_in@[k as int]);
                        assert(sub[k as int].1@[a] == x && sub[k as int].1@[b] == y);
                    }
                }
            }
            k += 1;
        }
        proof {
            assert(self.live_in@.subrange(0, k as int) =~= self.live_in@);
        }
        let r = LifetimeOverlaps::from_overlaps(overlaps);
        proof {
            if forall|k: int| 0 <= k < self.live_in@.len() ==> (#[trigger] self.live_in@[k]).1@.no_duplicates() {
                assert forall|x: VirtualRegister, y: VirtualRegister| #[trigger] r.overlaps@.contains((x, y)) implies x != y by {
                    assert(live_together(self.live_in@, x, y));
                    let (kk, a, b) = choose|kk: int, a: int, b: int|
                        0 <= kk < self.live_in@.len() && 0 <= a < b < self.live_in@[kk].1@.len() && #[trigger] self.live_in@[kk].1@[a] == x
                            && #[trigger] self.live_in@[kk].1@[b] == y;
                    assert(self.live_in@[kk].1@.no_duplicates());
                }
            }
        }
        r
    }
}

fn contains_pair(v: &Vec<(VirtualRegister, VirtualRegister)>, p: (VirtualRegister, VirtualRegister)) -> (r: bool)
    ensures
        r == v@.contains(p),
{
    let mut i: usize = 0;
    while i < v.len()
        invariant
            i <= v@.len(),
            forall|j: int| 0 <= j < i ==> v@[j] != p,
        decreases v.len() - i,
    {
        if v[i].0 == p.0 && v[i].1 == p.1 {
            proof {
                assert(v@[i as int] == p);
            }
            return true;
        }
        i += 1;
    }
    false
}

impl LifetimeOverlaps {
    /// The partners recorded for `x` (empty when it has no entry).
    pub open spec fn partners(&self, x: VirtualRegister) -> Seq<VirtualRegister> {
        if self.has_partners(x) {
            let k = choose|k: int| 0 <= k < self.overlaps_by_register@.len() && #[trigger] self.overlaps_by_register@[k].0 == x;
            self.overlaps_by_register@[k].1@
        } else {
            Seq::empty()
        }
    }

    /// `x` has an entry.
    pub open spec fn has_partners(&self, x: VirtualRegister) -> bool {
        exists|k: int| 0 <= k < self.overlaps_by_register@.len() && #[trigger] self.overlaps_by_register@[k].0 == x
    }

    /// Each register of a pair is a partner of the other.
    pub fn from_overlaps(overlaps: Vec<(VirtualRegister, VirtualRegister)>) -> (r: Self)
        ensures
            r.overlaps@ == overlaps@,
            by_register_wf(r.overlaps_by_register@),
            forall|x: VirtualRegister, y: VirtualRegister| #[trigger] r.partners(x).contains(y) <==> paired(overlaps@, x, y),
            forall|x: VirtualRegister| #[trigger] r.has_partners(x) <==> in_some_pair(overlaps@, x),
    {
        let mut by: Vec<(VirtualRegister, Vec<VirtualRegister>)> = Vec::new();
        let mut k: usize = 0;
        while k < overlaps.len()
            invariant
                k <= overlaps@.len(),
                by_register_wf(by@),
                forall|x: VirtualRegister, y: VirtualRegister| #[trigger] partners_in(by@, x).contains(y) <==> paired(overlaps@.subrange(0, k as int), x, y),
                forall|x: VirtualRegister| #[trigger] keyed(by@, x) <==> in_some_pair(overlaps@.subrange(0, k as int), x),
            decreases overlaps.len() - k,
        {
            let (a, b) = overlaps[k];
            add_partner(&mut by, a, b);
            add_partner(&mut by, b, a);
            proof {
                let s0 = overlaps@.subrange(0, k as int);
                let s1 = overlaps@.subrange(0, k + 1);
                assert(s1 =~= s0.push((a, b)));
                assert forall|x: VirtualRegister, y: VirtualRegister| #[trigger] partners_in(by@, x).contains(y) <==> paired(s1, x, y) by {
                    crate::control_flow::graph::lemma_push_contains(s0, (a, b), (x, y));
                    crate::control_flow::graph::lemma_push_contains(s0, (a, b), (y, x));
                }
                assert forall|x: VirtualRegister| #[trigger] keyed(by@, x) <==> in_some_pair(s1, x) by {
                    lemma_in_some_pair_push(s0, (a, b), x);
                }
            }
            k += 1;
        }
        proof {
            assert(overlaps@.subrange(0, k as int) =~= overlaps@);
        }
        let ghost by_view = by@;
        let r = LifetimeOverlaps { overlaps, overlaps_by_register: by };
        proof {
            assert(r.overlaps_by_register@ == by_view);
            assert forall|x: VirtualRegister| #[trigger] r.has_partners(x) <==> keyed(by_view, x) by {}
            assert forall|x: VirtualRegister| #[trigger] r.partners(x) == partners_in(by_view, x) by {}
        }
        r
    }
}

proof fn lemma_in_some_pair_push(s: Seq<(VirtualRegister, VirtualRegister)>, p: (VirtualRegister, VirtualRegister), x: VirtualRegister)
    ensures
        in_some_pair(s.push(p), x) <==> in_some_pair(s, x) || p.0 == x || p.1 == x,
{
    let t = s.push(p);
    if in_some_pair(t, x) {
        let j = choose|j: int| 0 <= j < t.len() && (#[trigger] t[j].0 == x || t[j].1 == x);
        if j < s.len() {
            assert(t[j] == s[j]);
            assert(s[j].0 == x || s[j].1 == x);
        }
    }
    if in_some_pair(s, x) {
        let j = choose|j: int| 0 <= j < s.len() && (#[trigger] s[j].0 == x || s[j].1 == x);
        assert(t[j] == s[j]);
        assert(t[j].0 == x || t[j].1 == x);
    }
    if p.0 == x || p.1 == x {
        assert(t[s.len() as int] == p);
        assert(t[s.len() as int].0 == x || t[s.len() as int].1 == x);
    }
}

/// Whether a register occurs in a list.
pub fn contains_register(v: &Vec<VirtualRegister>, r: VirtualRegister) -> (b: bool)
    ensures
        b == v@.contains(r),
{
    let mut i: usize = 0;
    while i < v.len()
        invariant
            i <= v@.len(),
            forall|j: int| 0 <= j < i ==> v@[j] != r,
        decreases v.len() - i,
    {
        if v[i] == r {
            proof {
                assert(v@[i as int] == r);
            }
            return true;
        }
        i += 1;
    }
    false
}

/// Keys appear once.
pub open spec fn by_register_wf(by: Seq<(VirtualRegister, Vec<VirtualRegister>)>) -> bool {
    forall|i: int, j: int| 0 <= i < by.len() && 0 <= j < by.len() && #[trigger] by[i].0 == #[trigger] by[j].0 ==> i == j
}

pub open spec fn keyed(by: Seq<(VirtualRegister, Vec<VirtualRegister>)>, x: VirtualRegister) -> bool {
    exists|k: int| 0 <= k < by.len() && #[trigger] by[k].0 == x
}

pub open spec fn partners_in(by: Seq<(VirtualRegister, Vec<VirtualRegister>)>, x: VirtualRegister) -> Seq<VirtualRegister> {
    if keyed(by, x) {
        let k = choose|k: int| 0 <= k < by.len() && #[trigger] by[k].0 == x;
        by[k].1@
    } else {
        Seq::empty()
    }
}

/// Records `y` as a partner of `x`.
fn add_partner(by: &mut Vec<(VirtualRegister, Vec<VirtualRegister>)>, x: VirtualRegister, y: VirtualRegister)
    requires
        by_register_wf(old(by)@),
    ensures
        by_register_wf(final(by)@),
        forall|r: VirtualRegister| #[trigger] keyed(final(by)@, r) <==> keyed(old(by)@, r) || r == x,
        forall|r: VirtualRegister, s: VirtualRegister| #[trigger] partners_in(final(by)@, r).contains(s) <==> partners_in(old(by)@, r).contains(s)
            || (r == x && s == y),
{
    let ghost start = by@;
    let mut i: usize = 0;
    while i < by.len()
        invariant
            by@ == start,
            start == old(by)@,
            by_register_wf(start),
            i <= by@.len(),
            forall|j: int| 0 <= j < i ==> by@[j].0 != x,
        decreases by.len() - i,
    {
        if by[i].0 == x {
            let (key, mut list) = by.remove(i);
            let ghost old_list = list@;
            let present = contains_register(&list, y);
            if !present {
                list.push(y);
            }
            let ghost new_list = list@;
            by.insert(i, (key, list));
            proof {
                assert(by@ == start.update(i as int, (key, by@[i as int].1)));
                assert forall|j: int| 0 <= j < by@.len() implies #[trigger] by@[j].0 == start[j].0 by {}
                assert(by_register_wf(by@));
                assert forall|r: VirtualRegister| #[trigger] keyed(by@, r) <==> keyed(start, r) || r == x by {
                    if keyed(start, r) {
                        let j = choose|j: int| 0 <= j < start.len() && #[trigger] start[j].0 == r;
                        assert(by@[j].0 == r);
                    }
                    if keyed(by@, r) {
                        let j = choose|j: int| 0 <= j < by@.len() && #[trigger] by@[j].0 == r;
                        assert(start[j].0 == r);
                    }
                }
                assert forall|r: VirtualRegister, s: VirtualRegister| #[trigger] partners_in(by@, r).contains(s) <==> partners_in(start, r).contains(s)
                    || (r == x && s == y) by {
                    if keyed(start, r) {
                        let j = choose|j: int| 0 <= j < start.len() && #[trigger] start[j].0 == r;
                        let j2 = choose|j2: int| 0 <= j2 < by@.len() && #[trigger] by@[j2].0 == r;
                        assert(by@[j].0 == r);
                        assert(j == j2);
                        if r == x {
                            assert(j == i);
                            crate::control_flow::graph::lemma_push_contains(old_list, y, s);
                        }
                    }
                }
            }
            return;
        }
        i += 1;
    }
    let mut list: Vec<VirtualRegister> = Vec::new();
    list.push(y);
    by.push((x, list));
    proof {
        assert forall|r: VirtualRegister| #[trigger] keyed(by@, r) <==> keyed(start, r) || r == x by {
            if keyed(start, r) {
                let j = choose|j: int| 0 <= j < start.len() && #[trigger] start[j].0 == r;
                assert(by@[j].0 == r);
            }
            if r == x {
                assert(by@[start.len() as int].0 == r);
            }
            if keyed(by@, r) && r != x {
                let j = choose|j: int| 0 <= j < by@.len() && #[trigger] by@[j].0 == r;
                assert(start[j].0 == r);
            }
        }
        assert forall|r: VirtualRegister, s: VirtualRegister| #[trigger] partners_in(by@, r).contains(s) <==> partners_in(start, r).contains(s)
            || (r == x && s == y) by {
            if keyed(by@, r) {
                let j2 = choose|j2: int| 0 <= j2 < by@.len() && #[trigger] by@[j2].0 == r;
                if r == x {
                    assert(j2 == start.len());
                    assert(by@[j2].1@ == seq![y]);
                    assert(seq![y][0] == y);
                } else {
                    let j = choose|j: int| 0 <= j < start.len() && #[trigger] start[j].0 == r;
                    assert(by@[j].0 == r);
                    assert(j == j2);
                }
            }
        }
    }
}

} // verus!
