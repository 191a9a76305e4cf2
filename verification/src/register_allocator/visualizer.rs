//! A textual rendering of a function's allocation.
use vstd::prelude::*;
use crate::lifetime_analyzer::visualizer::register_text;
use crate::order::{in_order, sorted_unique};
use crate::physical_register::PhysicalRegister;
use crate::register_allocator::assoc::{lemma_key_index, lookup};
use crate::register_allocator::domain::RegisterAllocationFunction;
use crate::text::{decimal, push_str, usize_to_text};
use crate::virtual_register::VirtualRegister;

verus! {

/// The keys of a mapping, in entry order.
pub open spec fn keys_of(m: Seq<(VirtualRegister, PhysicalRegister)>) -> Seq<VirtualRegister> {
    Seq::new(m.len(), |i: int| m[i].0)
}

/// `%<id> -> <register>` for each key, in the given order.
pub open spec fn mapping_lines(m: Seq<(VirtualRegister, PhysicalRegister)>, keys: Seq<VirtualRegister>) -> Seq<char>
    decreases keys.len(),
{
    if keys.len() == 0 {
        Seq::empty()
    } else {
        mapping_lines(m, keys.drop_last()) + register_text(keys.last()) + " -> "@ + lookup(m, keys.last()).unwrap().spec_name() + "\n"@
    }
}

/// `Callee-save: <register>` for each register, in the given order.
pub open spec fn callee_save_lines(rs: Seq<PhysicalRegister>) -> Seq<char>
    decreases rs.len(),
{
    if rs.len() == 0 {
        Seq::empty()
    } else {
        callee_save_lines(rs.drop_last()) + "Callee-save: "@ + rs.last().spec_name() + "\n"@
    }
}

/// The mapping in increasing register order, the callee-saved registers in
/// increasing order, and the number of stack slots.
pub open spec fn allocation_text(a: RegisterAllocationFunction) -> Seq<char> {
    mapping_lines(a.mapping@, in_order(keys_of(a.mapping@).to_set()))
        + callee_save_lines(in_order(a.used_callee_save@.to_set()))
        + "Max spilled registers: "@ + decimal(a.max_spilled_registers as nat) + "\n"@
}

impl RegisterAllocationFunction {
    /// One line per mapped register (`%<id> -> <register>`) in increasing
    /// register order, one `Callee-save: <register>` line per saved register
    /// in increasing order, and `Max spilled registers: <n>`.
    pub fn to_text(&self) -> (r: String)
        ensures
            r@ == allocation_text(*self),
    {
        let ghost key_seq = keys_of(self.mapping@);
        let mut keys: Vec<VirtualRegister> = Vec::new();
        let mut i: usize = 0;
        while i < self.mapping.len()
            invariant
                i <= self.mapping@.len(),
                key_seq == keys_of(self.mapping@),
                keys@ == key_seq.subrange(0, i as int),
            decreases self.mapping.len() - i,
        {
            keys.push(self.mapping[i].0);
            i += 1;
            proof {
                assert(keys@ =~= key_seq.subrange(0, i as int));
            }
        }
        proof {
            assert(keys@ =~= key_seq);
        }
        let sorted = sorted_unique(&keys);
        let mut out = String::new();
        let mut k: usize = 0;
        proof {
            assert(sorted@.subrange(0, 0) =~= Seq::<VirtualRegister>::empty());
        }
        while k < sorted.len()
            invariant
                k <= sorted@.len(),
                key_seq == keys_of(self.mapping@),
                sorted@ == in_order(key_seq.to_set()),
                forall|x: VirtualRegister| #[trigger] sorted@.contains(x) ==> key_seq.contains(x),
                out@ == mapping_lines(self.mapping@, sorted@.subrange(0, k as int)),
            decreases sorted.len() - k,
        {
            let ghost sub = sorted@.subrange(0, k + 1);
            proof {
                assert(sub.drop_last() =~= sorted@.subrange(0, k as int));
                assert(sub.last() == sorted@[k as int]);
                assert(sorted@.contains(sorted@[k as int]));
                let j = choose|j: int| 0 <= j < key_seq.len() && key_seq[j] == sorted@[k as int];
                lemma_key_index(self.mapping@, sorted@[k as int]);
                assert(key_seq[j] == self.mapping@[j].0);
                assert(self.mapping@[j].0 == sorted@[k as int]);
                assert(lookup(self.mapping@, sorted@[k as int]) is Some);
            }
            let r = sorted[k];
            match self.get(&r) {
                Some(p) => {
                    let name = r.to_text();
                    push_str(&mut out, name.as_str());
                    push_str(&mut out, " -> ");
                    push_str(&mut out, p.name());
                    push_str(&mut out, "\n");
                },
                None => {},
            }
            proof {
                assert(out@ =~= mapping_lines(self.mapping@, sub));
            }
            k += 1;
        }
        proof {
            assert(sorted@.subrange(0, k as int) =~= sorted@);
        }
        let saved = sorted_unique(&self.used_callee_save);
        let ghost head = out@;
        let mut c: usize = 0;
        proof {
            assert(saved@.subrange(0, 0) =~= Seq::<PhysicalRegister>::empty());
        }
        while c < saved.len()
            invariant
                c <= saved@.len(),
                out@ == head + callee_save_lines(saved@.subrange(0, c as int)),
            decreases saved.len() - c,
        {
            let ghost sub = saved@.subrange(0, c + 1);
            proof {
                assert(sub.drop_last() =~= saved@.subrange(0, c as int));
                assert(sub.last() == saved@[c as int]);
            }
            push_str(&mut out, "Callee-save: ");
            push_str(&mut out, saved[c].name());
            push_str(&mut out, "\n");
            proof {
                assert(out@ =~= head + callee_save_lines(sub));
            }
            c += 1;
        }
        proof {
            assert(saved@.subrange(0, c as int) =~= saved@);
        }
        push_str(&mut out, "Max spilled registers: ");
        let n = usize_to_text(self.max_spilled_registers);
        push_str(&mut out, n.as_str());
        push_str(&mut out, "\n");
        proof {
            assert(out@ =~= allocation_text(*self));
        }
        out
    }
}

} // verus!
