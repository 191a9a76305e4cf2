//! The optimization pipeline.
use vstd::prelude::*;
use crate::ir_generator::domain::{body_wf, ids_are_positions, same_function, IRFunction, IRModule};
use crate::ir_optimizer::assign::{merged_nodes, remove_redundant_assignments};
use crate::ir_optimizer::error::IROptimizerError;
use crate::ir_optimizer::inline::{inline_chain, inline_functions, inline_order, inlinable, positioned};
use crate::ir_optimizer::folder::fold_functions;
use crate::ir_optimizer::propagator::{fold_stable, propagate_constants, propagates_to, propagation_fails, same_outline};

verus! {

/// Well-formed bodies numbered by position stay so when only the outline is
/// known to be kept.
proof fn lemma_outline_positioned(m: IRModule, before: IRModule)
    requires
        same_outline(m.functions@, before.functions@),
        positioned(before.functions@),
        m.wf(),
    ensures
        positioned(m.functions@),
{
    assert forall|i: int| 0 <= i < m.functions@.len() implies body_wf((#[trigger] m.functions@[i]).body@)
        && ids_are_positions(m.functions@[i].body@) by {
        let f = m.functions@[i];
        let g = before.functions@[i];
        assert forall|j: int| 0 <= j < f.body@.len() implies #[trigger] f.body@[j].id == j by {
            assert(f.body@[j].id == g.body@[j].id);
        }
    }
}

/// `b` is a copy of `a`, function by function.
pub open spec fn copied(a: Seq<IRFunction>, b: Seq<IRFunction>) -> bool {
    &&& b.len() == a.len()
    &&& forall|i: int| 0 <= i < a.len() ==> same_function(#[trigger] b[i], a[i])
}

/// `b` is `a` after copy elimination: the same outline, and each block's
/// nodes merged by [`merged_nodes`].
pub open spec fn assignments_removed(a: Seq<IRFunction>, b: Seq<IRFunction>) -> bool {
    &&& same_outline(b, a)
    &&& forall|i: int, j: int| 0 <= i < a.len() && 0 <= j < a[i].body@.len()
        ==> (#[trigger] b[i].body@[j]).nodes@ == merged_nodes(a[i].body@[j].nodes@)
}

/// The first round (copy elimination, then propagation) meets a fold that fails.
pub open spec fn first_round_fails(fs: Seq<IRFunction>) -> bool {
    exists|m0: Seq<IRFunction>, m1: Seq<IRFunction>, d: nat|
        #![trigger copied(fs, m0), assignments_removed(m0, m1), propagation_fails(m1, d)]
        copied(fs, m0) && assignments_removed(m0, m1) && propagation_fails(m1, d)
}

/// The first round succeeds and leaves a function to inline, so a second
/// round runs.
pub open spec fn second_round_runs(fs: Seq<IRFunction>) -> bool {
    exists|m0: Seq<IRFunction>, m1: Seq<IRFunction>, m2: Seq<IRFunction>, d: nat|
        #![trigger copied(fs, m0), assignments_removed(m0, m1), propagates_to(m1, m2, d)]
        copied(fs, m0) && assignments_removed(m0, m1) && propagates_to(m1, m2, d)
            && exists|i: int| 0 <= i < m2.len() && inlinable(#[trigger] m2[i])
}

/// `out` is what the passes make of `fs`: copy elimination and propagation
/// on a copy; then, when some function qualifies for inlining, inlining in
/// module order followed by copy elimination and propagation again.
pub open spec fn optimized_from(fs: Seq<IRFunction>, out: Seq<IRFunction>) -> bool {
    exists|m0: Seq<IRFunction>, m1: Seq<IRFunction>, m2: Seq<IRFunction>, d: nat|
        #![trigger copied(fs, m0), assignments_removed(m0, m1), propagates_to(m1, m2, d)]
        copied(fs, m0) && assignments_removed(m0, m1) && propagates_to(m1, m2, d) && (if exists|i: int|
            0 <= i < m2.len() && inlinable(#[trigger] m2[i]) {
            exists|idx: Seq<int>, chain: Seq<Seq<IRFunction>>, m3: Seq<IRFunction>, m4: Seq<IRFunction>, d2: nat|
                #![trigger inline_order(m2, idx), inline_chain(m2, m3, idx, chain), assignments_removed(m3, m4), propagates_to(m4, out, d2)]
                inline_order(m2, idx) && inline_chain(m2, m3, idx, chain) && assignments_removed(m3, m4) && propagates_to(m4, out, d2)
        } else {
            out == m2
        })
}

/// Every copy of `fs` fails to fold after copy elimination: a constant
/// division by zero or `i64::MIN / -1` is met at once.
pub open spec fn first_fold_fails(fs: Seq<IRFunction>) -> bool {
    forall|m0: Seq<IRFunction>, m1: Seq<IRFunction>| #![trigger copied(fs, m0), assignments_removed(m0, m1)]
        copied(fs, m0) && assignments_removed(m0, m1) ==> fold_functions(m1) is None
}

/// Copy elimination and constant propagation, then inlining of small leaf
/// functions followed by a second round of both when anything was inlined.
/// On success the result has the input's functions (names, parameters, in
/// order), globals and strings, every body is well formed and numbered by
/// position, and nothing in it folds any more. Fails when folding meets a
/// constant division by zero or `i64::MIN / -1`.
pub fn optimize_ir(module: &IRModule) -> (r: Result<IRModule, IROptimizerError>)
    requires
        positioned(module.functions@),
    ensures
        r matches Ok(m) ==> {
            &&& positioned(m.functions@)
            &&& fold_stable(m.functions@)
            &&& m.functions@.len() == module.functions@.len()
            &&& forall|i: int| 0 <= i < m.functions@.len() ==> {
                let f = #[trigger] m.functions@[i];
                let g = module.functions@[i];
                &&& f.name == g.name
                &&& f.parameters@ == g.parameters@
                &&& f.parameter_regs@ == g.parameter_regs@
            }
            &&& m.global_variables@ == module.global_variables@
            &&& m.strings@ == module.strings@
        },
        r matches Ok(m) ==> optimized_from(module.functions@, m.functions@),
        r is Err ==> first_round_fails(module.functions@) || second_round_runs(module.functions@),
        first_fold_fails(module.functions@) ==> r is Err,
{
    let mut optimized = module.clone();
    proof {
        assert forall|i: int| 0 <= i < optimized.functions@.len() implies body_wf((#[trigger] optimized.functions@[i]).body@)
            && ids_are_positions(optimized.functions@[i].body@) by {
            assert(same_function(optimized.functions@[i], module.functions@[i]));
            crate::ir_optimizer::inline::lemma_copy_positioned(optimized.functions@[i].body@, module.functions@[i].body@);
        }
    }
    let ghost start = optimized;
    remove_redundant_assignments(&mut optimized)?;
    proof {
        lemma_outline_positioned(optimized, start);
    }
    let ghost second = optimized;
    proof {
        assert(copied(module.functions@, start.functions@));
        assert(assignments_removed(start.functions@, second.functions@));
    }
    match propagate_constants(&mut optimized) {
        Ok(()) => {},
        Err(e) => {
            proof {
                let d = choose|d: nat| #[trigger] propagation_fails(second.functions@, d);
                assert(first_round_fails(module.functions@));
            }
            return Err(e);
        },
    }
    proof {
        lemma_outline_positioned(optimized, second);
    }
    let ghost third = optimized;
    let ghost d1 = choose|d: nat| #[trigger] propagates_to(second.functions@, third.functions@, d);
    let inlined = inline_functions(&mut optimized)?;
    if !inlined {
        proof {
            assert(optimized_from(module.functions@, optimized.functions@));
        }
    }
    if inlined {
        let ghost fourth = optimized;
        remove_redundant_assignments(&mut optimized)?;
        proof {
            lemma_outline_positioned(optimized, fourth);
        }
        let ghost fifth = optimized;
        match propagate_constants(&mut optimized) {
            Ok(()) => {},
            Err(e) => {
                proof {
                    let d = choose|d: nat| #[trigger] propagates_to(second.functions@, third.functions@, d);
                    let i = choose|i: int| 0 <= i < third.functions@.len() && inlinable(#[trigger] third.functions@[i]);
                    assert(second_round_runs(module.functions@));
                }
                return Err(e);
            },
        }
        proof {
            lemma_outline_positioned(optimized, fifth);
            let d2 = choose|d: nat| #[trigger] propagates_to(fifth.functions@, optimized.functions@, d);
            let (idx, chain) = choose|idx: Seq<int>, chain: Seq<Seq<IRFunction>>|
                #![trigger inline_order(third.functions@, idx), inline_chain(third.functions@, fourth.functions@, idx, chain)]
                inline_order(third.functions@, idx) && inline_chain(third.functions@, fourth.functions@, idx, chain);
            assert(assignments_removed(fourth.functions@, fifth.functions@));
            assert(optimized_from(module.functions@, optimized.functions@));
        }
    }
    Ok(optimized)
}

} // verus!
