//! Lists of blocks under construction: fresh ids, unique ids, closed jumps.
use vstd::prelude::*;
use crate::ir_generator::domain::{IRBlock, IRNode, IRNodeKind, has_block, ids_unique, referenced, targets_closed, is_target};

verus! {

/// A non-empty list of blocks with unique ids in `(lo, hi]` whose jumps all
/// land inside the list.
pub open spec fn fresh_blocks(blocks: Seq<IRBlock>, lo: int, hi: int) -> bool {
    &&& blocks.len() > 0
    &&& ids_unique(blocks)
    &&& targets_closed(blocks)
    &&& forall|id: usize| #[trigger] has_block(blocks, id) ==> lo < id <= hi
}

/// Concatenation: ids and jumps are those of the parts.
pub proof fn lemma_join(a: Seq<IRBlock>, b: Seq<IRBlock>)
    requires
        ids_unique(a),
        ids_unique(b),
        forall|id: usize| #[trigger] has_block(a, id) ==> !has_block(b, id),
    ensures
        ids_unique(a + b),
        forall|id: usize| #[trigger] has_block(a + b, id) <==> (has_block(a, id) || has_block(b, id)),
        forall|t: usize| #[trigger] referenced(a + b, t) <==> (referenced(a, t) || referenced(b, t)),
{
    let c = a + b;
    assert forall|i: int, j: int|
        0 <= i < c.len() && 0 <= j < c.len() && #[trigger] c[i].id == #[trigger] c[j].id implies i == j by {
        if i < a.len() && j >= a.len() {
            assert(has_block(a, c[i].id));
            assert(has_block(b, b[j - a.len()].id));
        }
        if j < a.len() && i >= a.len() {
            assert(has_block(a, c[j].id));
            assert(has_block(b, b[i - a.len()].id));
        }
    }
    assert forall|id: usize| #[trigger] has_block(c, id) <==> (has_block(a, id) || has_block(b, id)) by {
        if has_block(c, id) {
            let i = choose|i: int| 0 <= i < c.len() && #[trigger] c[i].id == id;
            if i < a.len() {
                assert(a[i].id == id);
            } else {
                assert(b[i - a.len()].id == id);
            }
        }
        if has_block(a, id) {
            let i = choose|i: int| 0 <= i < a.len() && #[trigger] a[i].id == id;
            assert(c[i].id == id);
        }
        if has_block(b, id) {
            let i = choose|i: int| 0 <= i < b.len() && #[trigger] b[i].id == id;
            assert(c[i + a.len()].id == id);
        }
    }
    assert forall|t: usize| #[trigger] referenced(c, t) <==> (referenced(a, t) || referenced(b, t)) by {
        if referenced(c, t) {
            let (bb, n) = choose|bb: int, n: int|
                0 <= bb < c.len() && 0 <= n < c[bb].nodes@.len() && #[trigger] is_target(c[bb].nodes@[n].kind, t);
            if bb < a.len() {
                assert(is_target(a[bb].nodes@[n].kind, t));
            } else {
                assert(is_target(b[bb - a.len()].nodes@[n].kind, t));
            }
        }
        if referenced(a, t) {
            let (bb, n) = choose|bb: int, n: int|
                0 <= bb < a.len() && 0 <= n < a[bb].nodes@.len() && #[trigger] is_target(a[bb].nodes@[n].kind, t);
            assert(is_target(c[bb].nodes@[n].kind, t));
        }
        if referenced(b, t) {
            let (bb, n) = choose|bb: int, n: int|
                0 <= bb < b.len() && 0 <= n < b[bb].nodes@.len() && #[trigger] is_target(b[bb].nodes@[n].kind, t);
            assert(is_target(c[bb + a.len()].nodes@[n].kind, t));
        }
    }
}

/// A single block: its id, and the targets of its nodes.
pub proof fn lemma_single(blk: IRBlock)
    ensures
        ids_unique(seq![blk]),
        forall|id: usize| #[trigger] has_block(seq![blk], id) <==> id == blk.id,
        forall|t: usize| #[trigger] referenced(seq![blk], t) <==> exists|n: int|
            0 <= n < blk.nodes@.len() && #[trigger] is_target(blk.nodes@[n].kind, t),
{
    let s = seq![blk];
    assert forall|id: usize| #[trigger] has_block(s, id) <==> id == blk.id by {
        if id == blk.id {
            assert(s[0].id == id);
        }
    }
    assert forall|t: usize| #[trigger] referenced(s, t) <==> exists|n: int|
        0 <= n < blk.nodes@.len() && #[trigger] is_target(blk.nodes@[n].kind, t) by {
        if exists|n: int| 0 <= n < blk.nodes@.len() && #[trigger] is_target(blk.nodes@[n].kind, t) {
            let n = choose|n: int| 0 <= n < blk.nodes@.len() && #[trigger] is_target(blk.nodes@[n].kind, t);
            assert(is_target(s[0].nodes@[n].kind, t));
        }
    }
}

/// Joins two block lists.
pub fn join(a: Vec<IRBlock>, b: Vec<IRBlock>) -> (r: Vec<IRBlock>)
    ensures
        r@ == a@ + b@,
{
    let mut a = a;
    let mut b = b;
    a.append(&mut b);
    a
}

/// A list of one block.
pub fn single(b: IRBlock) -> (r: Vec<IRBlock>)
    ensures
        r@ == seq![b],
{
    let mut v: Vec<IRBlock> = Vec::new();
    v.push(b);
    v
}

} // verus!
