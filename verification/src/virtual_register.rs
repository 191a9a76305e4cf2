//! Virtual registers: the unbounded register names of the IR.
use vstd::prelude::*;
use crate::physical_register::PhysicalRegister;
use crate::text::{push_char, u64_to_text, push_str, decimal};

verus! {

/// A virtual register. `stored` marks registers that hold a program variable
/// (their value must survive until the variable is assigned again).
#[derive(Debug, Clone, Copy, PartialEq, Eq, Hash, PartialOrd, Ord, Structural)]
pub struct VirtualRegister {
    pub id: u32,
    pub stored: bool,
}

impl VirtualRegister {
    pub fn new(id: u32, stored: bool) -> (r: Self)
        ensures
            r.id == id,
            r.stored == stored,
    {
        VirtualRegister { id, stored }
    }

    /// The placeholder that stands for a physical register: its id is the
    /// physical id offset by one million.
    pub fn physical_dummy(physical: &PhysicalRegister) -> (r: Self)
        ensures
            r.id == 1000000 + physical.spec_id(),
            !r.stored,
    {
        VirtualRegister { id: 1000000 + physical.id(), stored: false }
    }

    /// `%` followed by the id.
    pub fn to_text(&self) -> (r: String)
        ensures
            r@ == seq!['%'] + decimal(self.id as nat),
    {
        let mut s = String::new();
        push_char(&mut s, '%');
        let digits = u64_to_text(self.id as u64);
        push_str(&mut s, digits.as_str());
        proof {
            assert(s@ =~= seq!['%'] + decimal(self.id as nat));
        }
        s
    }
}

/// The id handed out after `id`: the next one, or zero after `u32::MAX`.
pub open spec fn following_id(id: u32) -> u32 {
    if id == u32::MAX {
        0
    } else {
        (id + 1) as u32
    }
}

/// `rs` are the registers that allocations hand out, in order, from the
/// manager states `ms`: each allocation hands out the state's next id and
/// leaves the following one.
pub open spec fn allocation_run(ms: Seq<VirtualRegisterManager>, rs: Seq<VirtualRegister>) -> bool {
    &&& ms.len() == rs.len() + 1
    &&& forall|i: int| 0 <= i < rs.len() ==> (#[trigger] rs[i]).id == ms[i].next_id()
        && ms[i + 1].next_id() == following_id(ms[i].next_id())
}

/// The `k`-th allocation from a new manager hands out id `k`, for fewer
/// than 2^32 allocations; so one manager's registers have strictly
/// increasing, distinct ids.
pub proof fn lemma_allocation_ids(ms: Seq<VirtualRegisterManager>, rs: Seq<VirtualRegister>)
    requires
        allocation_run(ms, rs),
        ms[0].next_id() == 0,
        rs.len() <= 0x1_0000_0000,
    ensures
        forall|k: int| 0 <= k < rs.len() ==> (#[trigger] rs[k]).id == k,
        forall|j: int, k: int| 0 <= j < k < rs.len() ==> (#[trigger] rs[j]).id < (#[trigger] rs[k]).id,
{
    assert forall|k: int| 0 <= k < rs.len() implies (#[trigger] rs[k]).id == k by {
        lemma_next_ids(ms, rs, k);
    }
}

proof fn lemma_next_ids(ms: Seq<VirtualRegisterManager>, rs: Seq<VirtualRegister>, k: int)
    requires
        allocation_run(ms, rs),
        ms[0].next_id() == 0,
        rs.len() <= 0x1_0000_0000,
        0 <= k < rs.len(),
    ensures
        ms[k].next_id() == k,
        rs[k].id == k,
    decreases k,
{
    assert(rs[k].id == ms[k].next_id());
    if k > 0 {
        lemma_next_ids(ms, rs, k - 1);
    }
}

/// Hands out virtual registers with consecutive ids from zero.
pub struct VirtualRegisterManager {
    counter: u32,
}

impl VirtualRegisterManager {
    /// The id that the next allocation hands out.
    pub closed spec fn next_id(&self) -> u32 {
        self.counter
    }

    pub fn new() -> (r: Self)
        ensures
            r.next_id() == 0,
    {
        VirtualRegisterManager { counter: 0 }
    }

    /// A register with the next id; the id after `u32::MAX` is zero.
    pub fn allocate(&mut self, stored: bool) -> (r: VirtualRegister)
        ensures
            r.id == old(self).next_id(),
            r.stored == stored,
            final(self).next_id() == following_id(old(self).next_id()),
    {
        let id = self.counter;
        self.counter = self.counter.wrapping_add(1);
        VirtualRegister::new(id, stored)
    }
}

} // verus!
