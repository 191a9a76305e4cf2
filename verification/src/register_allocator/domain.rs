//! The result of register allocation: for every function, the physical
//! register of each virtual register and the callee-saved registers used.
use vstd::prelude::*;
use crate::physical_register::PhysicalRegister;
use crate::register_allocator::assoc::{find_key, keys_unique, lookup, put};
use crate::virtual_register::VirtualRegister;

verus! {

/// The allocation of one function.
#[derive(Debug, PartialEq)]
pub struct RegisterAllocationFunction {
    /// Each virtual register once, with its physical register.
    pub mapping: Vec<(VirtualRegister, PhysicalRegister)>,
    /// The callee-saved registers the function uses, each once.
    pub used_callee_save: Vec<PhysicalRegister>,
    /// Stack slots the function needs (spilled and saved registers).
    pub max_spilled_registers: usize,
}

impl RegisterAllocationFunction {
    pub fn new() -> (r: Self)
        ensures
            r.mapping@ == Seq::<(VirtualRegister, PhysicalRegister)>::empty(),
            r.used_callee_save@ == Seq::<PhysicalRegister>::empty(),
            r.max_spilled_registers == 0,
    {
        RegisterAllocationFunction { mapping: Vec::new(), used_callee_save: Vec::new(), max_spilled_registers: 0 }
    }

    /// Maps a virtual register to a physical one, replacing its old mapping.
    pub fn allocate(&mut self, virtual_reg: VirtualRegister, physical_reg: PhysicalRegister)
        requires
            keys_unique(old(self).mapping@),
        ensures
            keys_unique(final(self).mapping@),
            lookup(final(self).mapping@, virtual_reg) == Some(physical_reg),
            forall|x: VirtualRegister| x != virtual_reg ==> #[trigger] lookup(final(self).mapping@, x) == lookup(old(self).mapping@, x),
            final(self).used_callee_save@ == old(self).used_callee_save@,
            final(self).max_spilled_registers == old(self).max_spilled_registers,
    {
        put(&mut self.mapping, virtual_reg, physical_reg);
    }

    /// The physical register of a virtual register.
    pub fn get(&self, virtual_reg: &VirtualRegister) -> (r: Option<PhysicalRegister>)
        ensures
            r == lookup(self.mapping@, *virtual_reg),
    {
        match find_key(&self.mapping, *virtual_reg) {
            Some(i) => Some(self.mapping[i].1),
            None => None,
        }
    }
}

impl Clone for RegisterAllocationFunction {
    fn clone(&self) -> (r: Self)
        ensures
            r.mapping@ == self.mapping@,
            r.used_callee_save@ == self.used_callee_save@,
            r.max_spilled_registers == self.max_spilled_registers,
    {
        let mut mapping: Vec<(VirtualRegister, PhysicalRegister)> = Vec::new();
        let mut i: usize = 0;
        while i < self.mapping.len()
            invariant
                i <= self.mapping@.len(),
                mapping@ == self.mapping@.subrange(0, i as int),
            decreases self.mapping.len() - i,
        {
            mapping.push(self.mapping[i]);
            i += 1;
            proof {
                assert(mapping@ =~= self.mapping@.subrange(0, i as int));
            }
        }
        let mut used: Vec<PhysicalRegister> = Vec::new();
        let mut j: usize = 0;
        while j < self.used_callee_save.len()
            invariant
                j <= self.used_callee_save@.len(),
                used@ == self.used_callee_save@.subrange(0, j as int),
            decreases self.used_callee_save.len() - j,
        {
            used.push(self.used_callee_save[j]);
            j += 1;
            proof {
                assert(used@ =~= self.used_callee_save@.subrange(0, j as int));
            }
        }
        proof {
            assert(self.mapping@.subrange(0, i as int) =~= self.mapping@);
            assert(self.used_callee_save@.subrange(0, j as int) =~= self.used_callee_save@);
        }
        RegisterAllocationFunction { mapping, used_callee_save: used, max_spilled_registers: self.max_spilled_registers }
    }
}

/// The allocations of a module, one entry per function name.
#[derive(Debug, PartialEq)]
pub struct RegisterAllocation {
    pub functions: Vec<(String, RegisterAllocationFunction)>,
}

/// The allocation recorded for a function name (the last entry for it).
pub open spec fn allocation_of(functions: Seq<(String, RegisterAllocationFunction)>, name: Seq<char>) -> Option<RegisterAllocationFunction>
    decreases functions.len(),
{
    if functions.len() == 0 {
        None
    } else if functions.last().0@ == name {
        Some(functions.last().1)
    } else {
        allocation_of(functions.drop_last(), name)
    }
}

impl RegisterAllocation {
    pub fn new() -> (r: Self)
        ensures
            r.functions@ == Seq::<(String, RegisterAllocationFunction)>::empty(),
    {
        RegisterAllocation { functions: Vec::new() }
    }

    /// The allocation of a function by name (a later entry for the same name
    /// wins, as when inserting into a map).
    pub fn get_function(&self, name: &String) -> (r: Option<&RegisterAllocationFunction>)
        ensures
            r matches Some(f) ==> allocation_of(self.functions@, name@) == Some(*f),
            r is None ==> allocation_of(self.functions@, name@) is None,
    {
        let mut i: usize = self.functions.len();
        proof {
            assert(self.functions@.subrange(0, i as int) =~= self.functions@);
        }
        while i > 0
            invariant
                i <= self.functions@.len(),
                allocation_of(self.functions@, name@) == allocation_of(self.functions@.subrange(0, i as int), name@),
            decreases i,
        {
            proof {
                assert(self.functions@.subrange(0, i as int).drop_last() =~= self.functions@.subrange(0, i - 1));
                assert(self.functions@.subrange(0, i as int).last() == self.functions@[i - 1]);
            }
            if self.functions[i - 1].0 == *name {
                return Some(&self.functions[i - 1].1);
            }
            i -= 1;
        }
        None
    }
}

} // verus!
