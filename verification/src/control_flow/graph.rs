//! The control-flow graph of a function: its block ids and the jumps and
//! fall-throughs between them.
use vstd::prelude::*;
use crate::ir_generator::domain::{ids_unique, is_target, IRBlock, IRFunction, IRNodeKind};

verus! {

#[derive(Debug)]
pub struct ControlFlowGraph {
    /// Block ids, each once, in the order of the body.
    pub blocks: Vec<usize>,
    /// Edges `(from, to)`, each once, in the order they were found.
    pub edges: Vec<(usize, usize)>,
}

/// The targets of the edges leaving `id`, in edge order.
pub open spec fn successors_of(edges: Seq<(usize, usize)>, id: usize) -> Seq<usize>
    decreases edges.len(),
{
    if edges.len() == 0 {
        Seq::empty()
    } else {
        let rest = successors_of(edges.drop_last(), id);
        if edges.last().0 == id {
            rest.push(edges.last().1)
        } else {
            rest
        }
    }
}

/// Control falls from the block at position `k - 1` into the one at `k`.
pub open spec fn falls_through(body: Seq<IRBlock>, k: int, x: usize, y: usize) -> bool {
    1 <= k < body.len() && body[k - 1].id == x && body[k].id == y && body[k - 1].spec_is_connected_to_next()
}

/// A branch of the block with id `x` jumps to `y`.
pub open spec fn jumps_to(body: Seq<IRBlock>, x: usize, y: usize) -> bool {
    exists|k: int, n: int|
        0 <= k < body.len() && body[k].id == x && 0 <= n < body[k].nodes@.len() && #[trigger] is_target(
            body[k].nodes@[n].kind,
            y,
        )
}

/// The edges of a body whose block ids are unique: fall-throughs and jumps.
pub open spec fn flow_edge(body: Seq<IRBlock>, x: usize, y: usize) -> bool {
    (exists|k: int| #[trigger] falls_through(body, k, x, y)) || jumps_to(body, x, y)
}

/// What a pushed sequence contains.
pub proof fn lemma_push_contains<T>(s: Seq<T>, x: T, y: T)
    ensures
        s.push(x).contains(y) <==> (s.contains(y) || y == x),
{
    if s.push(x).contains(y) && y != x {
        let i = choose|i: int| 0 <= i < s.push(x).len() && s.push(x)[i] == y;
        assert(s[i] == y);
    }
    if s.contains(y) {
        let i = choose|i: int| 0 <= i < s.len() && s[i] == y;
        assert(s.push(x)[i] == y);
    }
    if y == x {
        assert(s.push(x)[s.len() as int] == y);
    }
}

impl ControlFlowGraph {
    fn new() -> (r: Self)
        ensures
            r.blocks@ == Seq::<usize>::empty(),
            r.edges@ == Seq::<(usize, usize)>::empty(),
    {
        ControlFlowGraph { blocks: Vec::new(), edges: Vec::new() }
    }

    /// Adds a block id unless it is already there.
    fn add_block(&mut self, block_id: usize)
        ensures
            final(self).edges@ == old(self).edges@,
            final(self).blocks@ == if old(self).blocks@.contains(block_id) {
                old(self).blocks@
            } else {
                old(self).blocks@.push(block_id)
            },
    {
        let mut i: usize = 0;
        while i < self.blocks.len()
            invariant
                i <= self.blocks@.len(),
                forall|j: int| 0 <= j < i ==> self.blocks@[j] != block_id,
            decreases self.blocks.len() - i,
        {
            if self.blocks[i] == block_id {
                return;
            }
            i += 1;
        }
        self.blocks.push(block_id);
    }

    /// Adds an edge unless it is already there.
    fn add_edge(&mut self, from: usize, to: usize)
        ensures
            final(self).blocks@ == old(self).blocks@,
            final(self).edges@ == if old(self).edges@.contains((from, to)) {
                old(self).edges@
            } else {
                old(self).edges@.push((from, to))
            },
    {
        let mut i: usize = 0;
        while i < self.edges.len()
            invariant
                i <= self.edges@.len(),
                forall|j: int| 0 <= j < i ==> self.edges@[j] != (from, to),
            decreases self.edges.len() - i,
        {
            if self.edges[i].0 == from && self.edges[i].1 == to {
                return;
            }
            i += 1;
        }
        self.edges.push((from, to));
    }

    /// The targets of the edges leaving a block, in edge order.
    pub fn successors(&self, block_id: usize) -> (r: Vec<usize>)
        ensures
            r@ == successors_of(self.edges@, block_id),
    {
        let mut out: Vec<usize> = Vec::new();
        let mut i: usize = 0;
        while i < self.edges.len()
            invariant
                i <= self.edges@.len(),
                out@ == successors_of(self.edges@.subrange(0, i as int), block_id),
            decreases self.edges.len() - i,
        {
            proof {
                assert(self.edges@.subrange(0, i + 1).drop_last() =~= self.edges@.subrange(0, i as int));
            }
            if self.edges[i].0 == block_id {
                out.push(self.edges[i].1);
            }
            i += 1;
        }
        proof {
            assert(self.edges@.subrange(0, i as int) =~= self.edges@);
        }
        out
    }

    /// Builds the graph of a function: every block id once, in body order;
    /// an edge from each block to the next one when control falls through,
    /// and from each block to every target of its branches. Each edge is
    /// listed once. When the block ids are unique, the edges are exactly the
    /// fall-throughs and the jumps of the body.
    pub fn from_function(function: &IRFunction) -> (r: Self)
        ensures
            r.blocks@.no_duplicates(),
            forall|id: usize| r.blocks@.contains(id) <==> exists|k: int| 0 <= k < function.body@.len() && #[trigger] function.body@[k].id == id,
            r.edges@.no_duplicates(),
            ids_unique(function.body@) ==> forall|x: usize, y: usize| #[trigger] r.edges@.contains((x, y)) <==> flow_edge(function.body@, x, y),
            ids_unique(function.body@) ==> r.blocks@ == function.body@.map_values(|x: IRBlock| x.id),
    {
        let ghost body = function.body@;
        let mut flow = ControlFlowGraph::new();
        let mut b: usize = 0;
        while b < function.body.len()
            invariant
                body == function.body@,
                b <= body.len(),
                flow.blocks@.no_duplicates(),
                forall|id: usize| flow.blocks@.contains(id) <==> exists|k: int| 0 <= k < b && #[trigger] body[k].id == id,
                b > 0 && ids_unique(body) ==> flow.blocks@.len() > 0 && flow.blocks@.last() == body[b - 1].id,
                ids_unique(body) ==> flow.blocks@ == body.subrange(0, b as int).map_values(|x: IRBlock| x.id),
                flow.edges@.no_duplicates(),
                ids_unique(body) ==> forall|x: usize, y: usize| #[trigger] flow.edges@.contains((x, y)) <==> (
                    (exists|k: int| 1 <= k < b && #[trigger] falls_through(body, k, x, y))
                    || exists|k: int, n: int| 0 <= k < b && body[k].id == x && 0 <= n < body[k].nodes@.len()
                        && #[trigger] is_target(body[k].nodes@[n].kind, y)),
            decreases body.len() - b,
        {
            let block = &function.body[b];
            let ghost edges_before = flow.edges@;
            if flow.blocks.len() > 0 {
                let last_id = flow.blocks[flow.blocks.len() - 1];
                let mut f: usize = 0;
                let mut found = false;
                while f < function.body.len()
                    invariant
                        body == function.body@,
                        f <= body.len(),
                        !found ==> forall|j: int| 0 <= j < f ==> body[j].id != last_id,
                        found ==> f < body.len() && body[f as int].id == last_id,
                    ensures
                        found ==> f < body.len() && body[f as int].id == last_id,
                        !found ==> forall|j: int| 0 <= j < body.len() ==> body[j].id != last_id,
                    decreases body.len() - f,
                {
                    if function.body[f].id == last_id {
                        found = true;
                        break;
                    }
                    f += 1;
                }
                let connected = found && function.body[f].is_connected_to_next();
                if connected {
                    flow.add_edge(last_id, block.id);
                }
                proof {
                    if ids_unique(body) {
                        assert(flow.blocks@.contains(flow.blocks@[0]));
                        assert(b > 0);
                        assert(body[b - 1].id == last_id);
                        assert(found);
                        assert(f == b - 1);
                        assert forall|x: usize, y: usize| #[trigger] flow.edges@.contains((x, y)) <==> (edges_before.contains((x, y))
                            || falls_through(body, b as int, x, y)) by {
                            lemma_push_contains(edges_before, (last_id, block.id), (x, y));
                            if falls_through(body, b as int, x, y) {
                                assert(x == last_id && y == block.id);
                            }
                        }
                    }
                }
            } else {
                proof {
                    if ids_unique(body) {
                        assert(b == 0);
                    }
                }
            }
            let ghost edges_mid = flow.edges@;
            proof {
                if ids_unique(body) {
                    assert forall|x: usize, y: usize| #[trigger] edges_mid.contains((x, y)) <==> (
                        (exists|k: int| 1 <= k < b + 1 && #[trigger] falls_through(body, k, x, y))
                        || exists|k: int, n: int| 0 <= k < b && body[k].id == x && 0 <= n < body[k].nodes@.len()
                            && #[trigger] is_target(body[k].nodes@[n].kind, y)) by {
                        if exists|k: int| 1 <= k < b + 1 && #[trigger] falls_through(body, k, x, y) {
                            let k = choose|k: int| 1 <= k < b + 1 && #[trigger] falls_through(body, k, x, y);
                            if k < b {
                                assert(edges_before.contains((x, y)));
                            }
                        }
                        if edges_mid.contains((x, y)) && !edges_before.contains((x, y)) {
                            assert(falls_through(body, b as int, x, y));
                        }
                    }
                }
            }
            let ghost blocks_before = flow.blocks@;
            flow.add_block(block.id);
            proof {
                assert(body[b as int].id == block.id);
                if ids_unique(body) {
                    if blocks_before.contains(block.id) {
                        let k = choose|k: int| 0 <= k < b && #[trigger] body[k].id == block.id;
                        assert(body[k].id == body[b as int].id);
                    }
                    assert(flow.blocks@ =~= body.subrange(0, b + 1).map_values(|x: IRBlock| x.id));
                }
                assert forall|id: usize| flow.blocks@.contains(id) <==> exists|k: int| 0 <= k < b + 1 && #[trigger] body[k].id == id by {
                    lemma_push_contains(blocks_before, block.id, id);
                    if flow.blocks@.contains(id) && id != block.id {
                        assert(exists|k: int| 0 <= k < b && #[trigger] body[k].id == id);
                    }
                }
            }
            let mut n: usize = 0;
            while n < block.nodes.len()
                invariant
                    body == function.body@,
                    b < body.len(),
                    *block == body[b as int],
                    n <= block.nodes@.len(),
                    flow.edges@.no_duplicates(),
                    flow.blocks@.no_duplicates(),
                    forall|id: usize| flow.blocks@.contains(id) <==> exists|k: int| 0 <= k < b + 1 && #[trigger] body[k].id == id,
                    ids_unique(body) ==> flow.blocks@.len() > 0 && flow.blocks@.last() == body[b as int].id,
                    ids_unique(body) ==> flow.blocks@ == body.subrange(0, b + 1).map_values(|x: IRBlock| x.id),
                    ids_unique(body) ==> forall|x: usize, y: usize| #[trigger] flow.edges@.contains((x, y)) <==> (
                        (exists|k: int| 1 <= k < b + 1 && #[trigger] falls_through(body, k, x, y))
                        || (exists|k: int, m: int| 0 <= k < b && body[k].id == x && 0 <= m < body[k].nodes@.len()
                            && #[trigger] is_target(body[k].nodes@[m].kind, y))
                        || (x == body[b as int].id && exists|m: int| 0 <= m < n && #[trigger] is_target(block.nodes@[m].kind, y))),
                decreases block.nodes.len() - n,
            {
                let ghost e0 = flow.edges@;
                let ghost node_kind = block.nodes@[n as int].kind;
                if let IRNodeKind::Branch { true_branch, false_branch, .. } = &block.nodes[n].kind {
                    let ghost e1 = flow.edges@;
                    if let Some(t) = true_branch {
                        flow.add_edge(block.id, *t);
                    }
                    let ghost e2 = flow.edges@;
                    if let Some(t) = false_branch {
                        flow.add_edge(block.id, *t);
                    }
                    proof {
                        assert forall|x: usize, y: usize| #[trigger] flow.edges@.contains((x, y)) <==> (e0.contains((x, y))
                            || (x == block.id && is_target(node_kind, y))) by {
                            lemma_push_contains(e1, (block.id, true_branch->0), (x, y));
                            lemma_push_contains(e2, (block.id, false_branch->0), (x, y));
                            if x == block.id && is_target(node_kind, y) {
                                if *true_branch == Some(y) {
                                    assert(e2.contains((x, y)));
                                }
                            }
                            if flow.edges@.contains((x, y)) && !e2.contains((x, y)) {
                                assert(*false_branch == Some(y));
                            }
                            if e2.contains((x, y)) && !e1.contains((x, y)) {
                                assert(*true_branch == Some(y));
                            }
                        }
                    }
                }
                proof {
                    assert forall|x: usize, y: usize| #[trigger] flow.edges@.contains((x, y)) <==> (e0.contains((x, y))
                        || (x == block.id && is_target(node_kind, y))) by {}
                    if ids_unique(body) {
                        assert forall|x: usize, y: usize| #[trigger] flow.edges@.contains((x, y)) <==> (
                            (exists|k: int| 1 <= k < b + 1 && #[trigger] falls_through(body, k, x, y))
                            || (exists|k: int, m: int| 0 <= k < b && body[k].id == x && 0 <= m < body[k].nodes@.len()
                                && #[trigger] is_target(body[k].nodes@[m].kind, y))
                            || (x == body[b as int].id && exists|m: int| 0 <= m < n + 1 && #[trigger] is_target(block.nodes@[m].kind, y))) by {
                            if flow.edges@.contains((x, y)) && !e0.contains((x, y)) {
                                assert(is_target(block.nodes@[n as int].kind, y));
                            }
                            if x == body[b as int].id && exists|m: int| 0 <= m < n + 1 && #[trigger] is_target(block.nodes@[m].kind, y) {
                                let m = choose|m: int| 0 <= m < n + 1 && #[trigger] is_target(block.nodes@[m].kind, y);
                                if m == n {
                                    assert(is_target(node_kind, y));
                                }
                            }
                        }
                    }
                }
                n += 1;
            }
            proof {
                if ids_unique(body) {
                    assert forall|x: usize, y: usize| #[trigger] flow.edges@.contains((x, y)) <==> (
                        (exists|k: int| 1 <= k < b + 1 && #[trigger] falls_through(body, k, x, y))
                        || exists|k: int, m: int| 0 <= k < b + 1 && body[k].id == x && 0 <= m < body[k].nodes@.len()
                            && #[trigger] is_target(body[k].nodes@[m].kind, y)) by {
                        if exists|k: int, m: int| 0 <= k < b + 1 && body[k].id == x && 0 <= m < body[k].nodes@.len()
                            && #[trigger] is_target(body[k].nodes@[m].kind, y) {
                            let (k, m) = choose|k: int, m: int| 0 <= k < b + 1 && body[k].id == x && 0 <= m < body[k].nodes@.len()
                                && #[trigger] is_target(body[k].nodes@[m].kind, y);
                            if k == b {
                                assert(is_target(block.nodes@[m].kind, y));
                            }
                        }
                    }
                }
            }
            b += 1;
        }
        proof {
            if ids_unique(body) {
                assert forall|x: usize, y: usize| #[trigger] flow.edges@.contains((x, y)) <==> flow_edge(body, x, y) by {
                    if exists|k: int| #[trigger] falls_through(body, k, x, y) {
                        let k = choose|k: int| #[trigger] falls_through(body, k, x, y);
                        assert(1 <= k < b);
                    }
                }
            }
        }
        flow
    }
}

} // verus!
