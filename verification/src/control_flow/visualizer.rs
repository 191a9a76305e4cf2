//! A textual rendering of a control-flow graph: one line per block with
//! outgoing edges, blocks in increasing id order.
use vstd::prelude::*;
use crate::control_flow::graph::{successors_of, ControlFlowGraph};
use crate::text::{decimal, push_str, usize_to_text};

verus! {

/// Some edge leaves block `id`.
pub open spec fn has_source(edges: Seq<(usize, usize)>, id: int) -> bool {
    exists|i: int| 0 <= i < edges.len() && edges[i].0 == id
}

/// `p<t1>, p<t2>, ...`.
pub open spec fn targets_text(ts: Seq<usize>) -> Seq<char>
    decreases ts.len(),
{
    if ts.len() == 0 {
        Seq::empty()
    } else if ts.len() == 1 {
        "p"@ + decimal(ts[0] as nat)
    } else {
        targets_text(ts.drop_last()) + ", "@ + "p"@ + decimal(ts.last() as nat)
    }
}

/// `p<id> -> p<t1>, p<t2>, ...` and a line break.
pub open spec fn edge_line(edges: Seq<(usize, usize)>, id: usize) -> Seq<char> {
    "p"@ + decimal(id as nat) + " -> "@ + targets_text(successors_of(edges, id)) + "\n"@
}

/// The lines of the blocks with ids below `n` that have outgoing edges, in
/// increasing id order.
pub open spec fn lines_below(edges: Seq<(usize, usize)>, n: nat) -> Seq<char>
    decreases n,
{
    if n == 0 {
        Seq::empty()
    } else {
        lines_below(edges, (n - 1) as nat) + if has_source(edges, n - 1) {
            edge_line(edges, (n - 1) as usize)
        } else {
            Seq::empty()
        }
    }
}

/// The rendering of a graph: a line for every block with outgoing edges.
pub open spec fn graph_text(edges: Seq<(usize, usize)>) -> Seq<char> {
    lines_below(edges, usize::MAX as nat + 1)
}

/// How many ids remain from the current one up.
spec fn ids_left(cur: Option<usize>) -> int {
    match cur {
        Some(c) => usize::MAX as int + 1 - c,
        None => 0,
    }
}

proof fn lemma_lines_gap(edges: Seq<(usize, usize)>, a: nat, b: nat)
    requires
        a <= b,
        forall|k: int| a <= k < b ==> !#[trigger] has_source(edges, k),
    ensures
        lines_below(edges, b) == lines_below(edges, a),
    decreases b - a,
{
    if b > a {
        lemma_lines_gap(edges, a, (b - 1) as nat);
        assert(!has_source(edges, b - 1));
        assert(lines_below(edges, b) =~= lines_below(edges, (b - 1) as nat));
    }
}

/// The smallest block id above `floor` (or the smallest of all without a
/// floor) that has outgoing edges.
fn next_source(edges: &Vec<(usize, usize)>, floor: Option<usize>) -> (r: Option<usize>)
    ensures
        r matches Some(m) ==> has_source(edges@, m as int) && (floor matches Some(f) ==> m > f),
        forall|k: int| #[trigger] has_source(edges@, k) && (floor matches Some(f) ==> k > f) ==> (r matches Some(m) && m <= k),
{
    let mut best: Option<usize> = None;
    let mut i: usize = 0;
    while i < edges.len()
        invariant
            i <= edges@.len(),
            best matches Some(m) ==> has_source(edges@, m as int) && (floor matches Some(f) ==> m > f),
            forall|j: int| 0 <= j < i && (floor matches Some(f) ==> edges@[j].0 > f) ==> (best matches Some(m) && m <= #[trigger] edges@[j].0),
        decreases edges.len() - i,
    {
        let from = edges[i].0;
        let above = match floor {
            Some(f) => from > f,
            None => true,
        };
        if above {
            let better = match best {
                Some(m) => from < m,
                None => true,
            };
            if better {
                best = Some(from);
            }
        }
        i += 1;
    }
    proof {
        assert forall|k: int| #[trigger] has_source(edges@, k) && (floor matches Some(f) ==> k > f) implies (best matches Some(m) && m <= k) by {
            let j = choose|j: int| 0 <= j < edges@.len() && edges@[j].0 == k;
            assert(edges@[j].0 == k);
        }
    }
    best
}

impl ControlFlowGraph {
    /// One line per block with outgoing edges, `p<from> -> p<to>, ...`, in
    /// increasing block id, the targets in edge order.
    pub fn to_text(&self) -> (r: String)
        ensures
            r@ == graph_text(self.edges@),
    {
        let mut out = String::new();
        let mut cur = next_source(&self.edges, None);
        proof {
            match cur {
                Some(c) => {
                    lemma_lines_gap(self.edges@, 0, c as nat);
                },
                None => {
                    lemma_lines_gap(self.edges@, 0, usize::MAX as nat + 1);
                },
            }
        }
        while cur.is_some()
            invariant
                cur matches Some(c) ==> out@ == lines_below(self.edges@, c as nat) && has_source(self.edges@, c as int),
                cur is None ==> out@ == graph_text(self.edges@),
            decreases ids_left(cur),
        {
            let c = match cur {
                Some(c) => c,
                None => 0,
            };
            let ghost before = out@;
            push_str(&mut out, "p");
            let id = usize_to_text(c);
            push_str(&mut out, id.as_str());
            push_str(&mut out, " -> ");
            let ts = self.successors(c);
            let mut j: usize = 0;
            proof {
                assert(ts@.subrange(0, 0) =~= Seq::<usize>::empty());
            }
            let ghost head = out@;
            while j < ts.len()
                invariant
                    j <= ts@.len(),
                    out@ == head + targets_text(ts@.subrange(0, j as int)),
                decreases ts.len() - j,
            {
                let ghost sub = ts@.subrange(0, j + 1);
                proof {
                    assert(sub.drop_last() =~= ts@.subrange(0, j as int));
                    assert(sub.last() == ts@[j as int]);
                }
                if j > 0 {
                    push_str(&mut out, ", ");
                }
                push_str(&mut out, "p");
                let t = usize_to_text(ts[j]);
                push_str(&mut out, t.as_str());
                proof {
                    if j == 0 {
                        assert(sub.len() == 1);
                        assert(out@ =~= head + targets_text(sub));
                    } else {
                        assert(out@ =~= head + targets_text(sub));
                    }
                }
                j += 1;
            }
            push_str(&mut out, "\n");
            proof {
                assert(ts@.subrange(0, j as int) =~= ts@);
                assert(out@ =~= before + edge_line(self.edges@, c));
                assert(lines_below(self.edges@, c as nat + 1) =~= lines_below(self.edges@, c as nat) + edge_line(self.edges@, c));
            }
            let next = next_source(&self.edges, Some(c));
            proof {
                match next {
                    Some(n) => {
                        assert forall|k: int| c + 1 <= k < n implies !#[trigger] has_source(self.edges@, k) by {}
                        lemma_lines_gap(self.edges@, c as nat + 1, n as nat);
                    },
                    None => {
                        assert forall|k: int| c + 1 <= k < usize::MAX as nat + 1 implies !#[trigger] has_source(self.edges@, k) by {}
                        lemma_lines_gap(self.edges@, c as nat + 1, usize::MAX as nat + 1);
                    },
                }
            }
            cur = next;
        }
        out
    }
}

} // verus!
