//! What compaction leaves behind, and why compacting twice is compacting
//! once.
use vstd::prelude::*;
use crate::ir_generator::domain::{
    IRBlock, IRNode, blocks_view, body_wf, compacted, ends_with_goto, ids_unique, is_target, merged_blocks, referenced,
    renumbered,
};

verus! {

/// Some block of `body` has id `id`.
spec fn from_body(body: Seq<IRBlock>, id: usize) -> bool {
    exists|j: int| 0 <= j < body.len() && body[j].id == id
}

/// Some entry of `m` holds the node `x`.
spec fn kept(m: Seq<(usize, Seq<IRNode>)>, x: IRNode) -> bool {
    exists|k: int, p: int| 0 <= k < m.len() && 0 <= p < m[k].1.len() && m[k].1[p] == x
}

/// The shape of what [`merged_blocks`] keeps: every entry is non-empty or
/// a jump target; an entry after the first is a jump target or follows one
/// that ends with a branch or a return; entries carry distinct ids of
/// blocks of `body`; and every node of `body` is kept.
proof fn lemma_merged_shape(all: Seq<IRBlock>, body: Seq<IRBlock>)
    requires
        ids_unique(body),
    ensures
        ({
            let m = merged_blocks(all, body);
            &&& forall|k: int| 0 <= k < m.len() ==> (#[trigger] m[k]).1.len() > 0 || referenced(all, m[k].0)
            &&& forall|k: int| 0 < k < m.len() ==> referenced(all, (#[trigger] m[k]).0) || ends_with_goto(m[k - 1].1)
            &&& forall|k: int| 0 <= k < m.len() ==> from_body(body, (#[trigger] m[k]).0)
            &&& forall|k1: int, k2: int|
                0 <= k1 < m.len() && 0 <= k2 < m.len() && k1 != k2 ==> (#[trigger] m[k1]).0 != (#[trigger] m[k2]).0
            &&& forall|j: int, n: int| 0 <= j < body.len() && 0 <= n < body[j].nodes@.len() ==> kept(m, #[trigger] body[j].nodes@[n])
        }),
    decreases body.len(),
{
    if body.len() > 0 {
        let rest = body.drop_last();
        let b = body.last();
        let mp = merged_blocks(all, rest);
        let m = merged_blocks(all, body);
        assert(ids_unique(rest)) by {
            assert forall|i: int, j: int| 0 <= i < rest.len() && 0 <= j < rest.len() && #[trigger] rest[i].id == #[trigger] rest[j].id implies i == j by {
                assert(body[i].id == body[j].id);
            }
        }
        lemma_merged_shape(all, rest);
        assert forall|k: int| 0 <= k < m.len() implies from_body(body, (#[trigger] m[k]).0) by {
            if k < mp.len() {
                assert(from_body(rest, mp[k].0));
                let j = choose|j: int| 0 <= j < rest.len() && rest[j].id == mp[k].0;
                assert(body[j] == rest[j]);
            } else {
                assert(body[body.len() - 1] == b);
            }
        }
        assert forall|j: int, n: int| 0 <= j < body.len() && 0 <= n < body[j].nodes@.len() implies kept(m, #[trigger] body[j].nodes@[n]) by {
            let x = body[j].nodes@[n];
            if j < rest.len() {
                assert(rest[j] == body[j]);
                assert(kept(mp, x));
                let (k, p) = choose|k: int, p: int| 0 <= k < mp.len() && 0 <= p < mp[k].1.len() && mp[k].1[p] == x;
                assert(m[k].1[p] == x);
            } else {
                assert(b == body[j]);
                if m.len() == mp.len() + 1 {
                    assert(m[mp.len() as int].1[n] == x);
                } else {
                    let last = mp.len() - 1;
                    assert(m[last].1 == mp[last].1 + b.nodes@);
                    assert(m[last].1[mp[last].1.len() + n] == x);
                }
            }
        }
        if !(b.nodes@.len() == 0 && !referenced(all, b.id)) && (referenced(all, b.id) || mp.len() == 0 || ends_with_goto(mp.last().1)) {
            assert forall|k: int| 0 <= k < mp.len() implies (#[trigger] mp[k]).0 != b.id by {
                assert(from_body(rest, mp[k].0));
                let j = choose|j: int| 0 <= j < rest.len() && rest[j].id == mp[k].0;
                assert(body[j].id == rest[j].id);
                assert(body[body.len() - 1].id == b.id);
            }
        }
    }
}

/// A target of a node of `a` that compaction keeps is, renumbered, a
/// target of a node of the compacted body.
proof fn lemma_target_kept(a: Seq<IRBlock>, b: Seq<IRBlock>, k: int)
    requires
        body_wf(a),
        compacted(a, b),
        0 <= k < merged_blocks(a, a).len(),
        referenced(a, merged_blocks(a, a)[k].0),
    ensures
        referenced(b, k as usize),
{
    let m = merged_blocks(a, a);
    let ids = m.map_values(|e: (usize, Seq<IRNode>)| e.0);
    let t = m[k].0;
    lemma_merged_shape(a, a);
    let (j, n) = choose|j: int, n: int| 0 <= j < a.len() && 0 <= n < a[j].nodes@.len() && #[trigger] is_target(a[j].nodes@[n].kind, t);
    let x = a[j].nodes@[n];
    assert(kept(m, x));
    let (k2, p) = choose|k2: int, p: int| 0 <= k2 < m.len() && 0 <= p < m[k2].1.len() && m[k2].1[p] == x;
    let y = b[k2].nodes@[p];
    assert(renumbered(m[k2].1[p].kind, y.kind, ids));
    assert forall|u: int| 0 <= u < ids.len() && ids[u] == t implies u == k by {
        assert(ids[u] == m[u].0);
        if u != k {
            assert(m[u].0 != m[k].0);
        }
    }
    assert(is_target(b[k2].nodes@[p].kind, k as usize));
}

/// A compacted body compacts to itself, given its shape.
proof fn lemma_merged_identity(b: Seq<IRBlock>, k: int)
    requires
        0 <= k <= b.len(),
        forall|i: int| 0 <= i < b.len() ==> (#[trigger] b[i]).nodes@.len() > 0 || referenced(b, b[i].id),
        forall|i: int| 0 < i < b.len() ==> referenced(b, (#[trigger] b[i]).id) || ends_with_goto(b[i - 1].nodes@),
    ensures
        merged_blocks(b, b.subrange(0, k)) == blocks_view(b.subrange(0, k)),
    decreases k,
{
    if k > 0 {
        lemma_merged_identity(b, k - 1);
        let s = b.subrange(0, k);
        assert(s.drop_last() =~= b.subrange(0, k - 1));
        assert(s.last() == b[k - 1]);
        assert(blocks_view(s) =~= blocks_view(b.subrange(0, k - 1)).push((b[k - 1].id, b[k - 1].nodes@)));
        if k > 1 {
            assert(blocks_view(b.subrange(0, k - 1)).last() == (b[k - 2].id, b[k - 2].nodes@));
        }
    }
}

/// Compacting is idempotent: compacting a body that compaction produced
/// gives the same blocks again.
pub proof fn lemma_compact_idempotent(a: Seq<IRBlock>, b: Seq<IRBlock>, c: Seq<IRBlock>)
    requires
        body_wf(a),
        compacted(a, b),
        compacted(b, c),
    ensures
        blocks_view(c) == blocks_view(b),
{
    let m = merged_blocks(a, a);
    lemma_merged_shape(a, a);
    assert forall|i: int| 0 <= i < b.len() implies (#[trigger] b[i]).nodes@.len() > 0 || referenced(b, b[i].id) by {
        if m[i].1.len() == 0 {
            lemma_target_kept(a, b, i);
        }
    }
    assert forall|i: int| 0 < i < b.len() implies referenced(b, (#[trigger] b[i]).id) || ends_with_goto(b[i - 1].nodes@) by {
        if referenced(a, m[i].0) {
            lemma_target_kept(a, b, i);
        } else {
            let last = m[i - 1].1.len() - 1;
            assert(renumbered(m[i - 1].1[last].kind, b[i - 1].nodes@[last].kind, m.map_values(|e: (usize, Seq<IRNode>)| e.0)));
        }
    }
    lemma_merged_identity(b, b.len() as int);
    assert(b.subrange(0, b.len() as int) =~= b);
    let mb = merged_blocks(b, b);
    let ids = mb.map_values(|e: (usize, Seq<IRNode>)| e.0);
    assert forall|i: int| 0 <= i < c.len() implies (#[trigger] c[i]).nodes@ == b[i].nodes@ by {
        assert forall|n: int| 0 <= n < c[i].nodes@.len() implies c[i].nodes@[n] == b[i].nodes@[n] by {
            assert(renumbered(mb[i].1[n].kind, c[i].nodes@[n].kind, ids));
            assert forall|u: int| 0 <= u < ids.len() implies ids[u] == u by {
                assert(ids[u] == b[u].id);
            }
        }
        assert(c[i].nodes@ =~= b[i].nodes@);
    }
    assert(blocks_view(c) =~= blocks_view(b));
}

} // verus!
