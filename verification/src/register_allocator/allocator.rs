//! Register allocation over a module, one function at a time.
use vstd::prelude::*;
use crate::ir_generator::domain::{IRFunction, IRModule};
use crate::lifetime_analyzer::domain::{same_live_sets, FunctionLifetime, LifetimeTable};
use crate::register_allocator::assoc::keys_unique;
use crate::register_allocator::domain::{RegisterAllocation, RegisterAllocationFunction};
use crate::register_allocator::error::RegisterAllocatorError;
use crate::register_allocator::irc::{allocate_registers, convention_error, has_wide_call, spill_error, valid_colouring, saves_used_callee_save, honours_convention};
use crate::physical_register::ARGUMENT_REGISTER_COUNT;

verus! {

/// Allocates registers with the lifetimes of a module's functions.
pub struct RegisterAllocator {
    lifetime_table: LifetimeTable,
}

/// The parameters and their bound registers correspond one to one.
pub open spec fn parameters_paired(f: IRFunction) -> bool {
    f.parameters@.len() == f.parameter_regs@.len()
}

/// The position of the first lifetime with the given name, or -1.
pub open spec fn lifetime_index(ls: Seq<FunctionLifetime>, name: Seq<char>) -> int
    decreases ls.len(),
{
    if ls.len() == 0 {
        -1
    } else {
        let i = lifetime_index(ls.drop_last(), name);
        if i >= 0 {
            i
        } else if ls.last().name@ == name {
            ls.len() - 1
        } else {
            -1
        }
    }
}

proof fn lemma_lifetime_index(ls: Seq<FunctionLifetime>, name: Seq<char>, k: int)
    requires
        0 <= k < ls.len(),
        ls[k].name@ == name,
        forall|j: int| 0 <= j < k ==> ls[j].name@ != name,
    ensures
        lifetime_index(ls, name) == k,
    decreases ls.len(),
{
    if k < ls.len() - 1 {
        lemma_lifetime_index(ls.drop_last(), name, k);
    } else {
        lemma_lifetime_index_none(ls.drop_last(), name);
    }
}

proof fn lemma_lifetime_index_none(ls: Seq<FunctionLifetime>, name: Seq<char>)
    requires
        forall|j: int| 0 <= j < ls.len() ==> ls[j].name@ != name,
    ensures
        lifetime_index(ls, name) == -1,
    decreases ls.len(),
{
    if ls.len() > 0 {
        lemma_lifetime_index_none(ls.drop_last(), name);
    }
}

/// Why a function is not allocated: no lifetimes under its name, or the
/// calling convention cannot be met, or the colouring spills.
pub open spec fn allocation_refused(f: IRFunction, names: Seq<Seq<char>>, e: RegisterAllocatorError) -> bool {
    if names.contains(f.name@) {
        convention_error(f, e) || spill_error(e)
    } else {
        e == (RegisterAllocatorError::FunctionNotFound { function: f.name })
    }
}

/// The calling convention cannot be met: more than six parameters, or a
/// call with more than six arguments.
pub open spec fn convention_broken(f: IRFunction) -> bool {
    f.parameter_regs@.len() > ARGUMENT_REGISTER_COUNT || has_wide_call(f)
}

impl RegisterAllocator {
    /// The names of the functions whose lifetimes the allocator holds.
    pub closed spec fn lifetime_names(&self) -> Seq<Seq<char>> {
        self.lifetime_table.functions@.map_values(|l: FunctionLifetime| l.name@)
    }

    /// The lifetimes the allocator holds.
    pub closed spec fn lifetimes(&self) -> Seq<FunctionLifetime> {
        self.lifetime_table.functions@
    }

    pub fn new(lifetime_table: &LifetimeTable) -> (r: Self)
        ensures
            r.lifetime_names() == lifetime_table.functions@.map_values(|l: FunctionLifetime| l.name@),
            r.lifetimes().len() == lifetime_table.functions@.len(),
            forall|k: int| 0 <= k < lifetime_table.functions@.len() ==> (#[trigger] r.lifetimes()[k]).name == lifetime_table.functions@[k].name
                && same_live_sets(r.lifetimes()[k].live_in@, lifetime_table.functions@[k].live_in@),
    {
        let copy = lifetime_table.clone();
        let r = RegisterAllocator { lifetime_table: copy };
        proof {
            assert(r.lifetime_names() =~= lifetime_table.functions@.map_values(|l: FunctionLifetime| l.name@));
        }
        r
    }

    /// Allocates every function in module order. Fails on the first
    /// function that has no lifetimes of the same name
    /// (`FunctionNotFound`) or that cannot be allocated (see
    /// [`allocate_registers`]). On success the module keeps its functions,
    /// names and parameters in order, its globals and its strings, and the
    /// allocation has one entry per function, under its name.
    pub fn allocate(&self, module: &IRModule) -> (r: Result<(IRModule, RegisterAllocation), RegisterAllocatorError>)
        requires
            forall|i: int| 0 <= i < module.functions@.len() ==> parameters_paired(#[trigger] module.functions@[i]),
        ensures
            r matches Ok((m, a)) ==> {
                &&& m.functions@.len() == module.functions@.len()
                &&& a.functions@.len() == module.functions@.len()
                &&& m.global_variables@ == module.global_variables@
                &&& m.strings@ == module.strings@
                &&& forall|i: int| 0 <= i < module.functions@.len() ==> {
                    let f = #[trigger] m.functions@[i];
                    let g = module.functions@[i];
                    &&& f.name == g.name
                    &&& f.parameters@ == g.parameters@
                    &&& f.parameter_regs@ == g.parameter_regs@
                    &&& a.functions@[i].0 == g.name
                    &&& keys_unique(a.functions@[i].1.mapping@)
                    &&& a.functions@[i].1.used_callee_save@.no_duplicates()
                    &&& a.functions@[i].1.max_spilled_registers == a.functions@[i].1.used_callee_save@.len()
                    &&& saves_used_callee_save(a.functions@[i].1)
                    &&& honours_convention(g, a.functions@[i].1.mapping@)
                    &&& lifetime_index(self.lifetimes(), g.name@) >= 0
                    &&& valid_colouring(g, self.lifetimes()[lifetime_index(self.lifetimes(), g.name@)].live_in@, a.functions@[i].1.mapping@)
                }
            },
            (exists|i: int| 0 <= i < module.functions@.len() && !self.lifetime_names().contains(#[trigger] module.functions@[i].name@)) ==> r is Err,
            (exists|i: int| 0 <= i < module.functions@.len() && convention_broken(#[trigger] module.functions@[i])) ==> r is Err,
            r is Err ==> exists|i: int| 0 <= i < module.functions@.len()
                && allocation_refused(#[trigger] module.functions@[i], self.lifetime_names(), r->Err_0),
    {
        let mut new_module = module.clone();
        new_module.functions = Vec::new();
        let mut allocation = RegisterAllocation::new();
        let mut i: usize = 0;
        while i < module.functions.len()
            invariant
                i <= module.functions@.len(),
                forall|j: int| 0 <= j < module.functions@.len() ==> parameters_paired(#[trigger] module.functions@[j]),
                new_module.global_variables@ == module.global_variables@,
                new_module.strings@ == module.strings@,
                new_module.functions@.len() == i,
                allocation.functions@.len() == i,
                forall|j: int| 0 <= j < i ==> self.lifetime_names().contains(#[trigger] module.functions@[j].name@),
                forall|j: int| 0 <= j < i ==> !convention_broken(#[trigger] module.functions@[j]),
                forall|j: int| 0 <= j < i ==> {
                    let f = #[trigger] new_module.functions@[j];
                    let g = module.functions@[j];
                    &&& f.name == g.name
                    &&& f.parameters@ == g.parameters@
                    &&& f.parameter_regs@ == g.parameter_regs@
                    &&& allocation.functions@[j].0 == g.name
                    &&& keys_unique(allocation.functions@[j].1.mapping@)
                    &&& allocation.functions@[j].1.used_callee_save@.no_duplicates()
                    &&& allocation.functions@[j].1.max_spilled_registers == allocation.functions@[j].1.used_callee_save@.len()
                    &&& saves_used_callee_save(allocation.functions@[j].1)
                    &&& honours_convention(g, allocation.functions@[j].1.mapping@)
                    &&& lifetime_index(self.lifetimes(), g.name@) >= 0
                    &&& valid_colouring(g, self.lifetimes()[lifetime_index(self.lifetimes(), g.name@)].live_in@, allocation.functions@[j].1.mapping@)
                },
            decreases module.functions.len() - i,
        {
            let function = &module.functions[i];
            let (allocated_function, function_allocation) = match self.allocate_function(function) {
                Ok(x) => x,
                Err(e) => {
                    proof {
                        assert(allocation_refused(module.functions@[i as int], self.lifetime_names(), e));
                    }
                    return Err(e);
                },
            };
            new_module.functions.push(allocated_function);
            allocation.functions.push((function.name.clone(), function_allocation));
            i += 1;
        }
        proof {
            if exists|j: int| 0 <= j < module.functions@.len() && !self.lifetime_names().contains(#[trigger] module.functions@[j].name@) {
                let j = choose|j: int| 0 <= j < module.functions@.len() && !self.lifetime_names().contains(#[trigger] module.functions@[j].name@);
                assert(self.lifetime_names().contains(module.functions@[j].name@));
            }
            if exists|j: int| 0 <= j < module.functions@.len() && convention_broken(#[trigger] module.functions@[j]) {
                let j = choose|j: int| 0 <= j < module.functions@.len() && convention_broken(#[trigger] module.functions@[j]);
                assert(!convention_broken(module.functions@[j]));
            }
        }
        Ok((new_module, allocation))
    }

    /// Allocates one function with the first lifetimes of the same name.
    fn allocate_function(&self, function: &IRFunction) -> (r: Result<(IRFunction, RegisterAllocationFunction), RegisterAllocatorError>)
        requires
            parameters_paired(*function),
        ensures
            r is Ok ==> self.lifetime_names().contains(function.name@),
            r matches Ok((f, a)) ==> f.name == function.name && f.parameters@ == function.parameters@
                && f.parameter_regs@ == function.parameter_regs@ && keys_unique(a.mapping@) && a.used_callee_save@.no_duplicates()
                && a.max_spilled_registers == a.used_callee_save@.len() && saves_used_callee_save(a)
                && honours_convention(*function, a.mapping@) && lifetime_index(self.lifetimes(), function.name@) >= 0
                && valid_colouring(*function, self.lifetimes()[lifetime_index(self.lifetimes(), function.name@)].live_in@, a.mapping@),
            r is Ok ==> !convention_broken(*function),
            r is Err ==> allocation_refused(*function, self.lifetime_names(), r->Err_0),
    {
        let mut k: usize = 0;
        while k < self.lifetime_table.functions.len()
            invariant
                parameters_paired(*function),
                k <= self.lifetime_table.functions@.len(),
                forall|j: int| 0 <= j < k ==> self.lifetime_table.functions@[j].name@ != function.name@,
            decreases self.lifetime_table.functions.len() - k,
        {
            if self.lifetime_table.functions[k].name == function.name {
                proof {
                    assert(self.lifetime_names()[k as int] == self.lifetime_table.functions@[k as int].name@);
                    lemma_lifetime_index(self.lifetime_table.functions@, function.name@, k as int);
                }
                return allocate_registers(function, &self.lifetime_table.functions[k]);
            }
            k += 1;
        }
        Err(RegisterAllocatorError::FunctionNotFound { function: function.name.clone() })
    }
}

} // verus!
