//! Small association lists keyed by virtual registers, each key at most once.
use vstd::prelude::*;
use crate::virtual_register::VirtualRegister;

verus! {

/// The position of the first entry with key `k`, or -1.
pub open spec fn key_index<V>(m: Seq<(VirtualRegister, V)>, k: VirtualRegister) -> int
    decreases m.len(),
{
    if m.len() == 0 {
        -1
    } else {
        let i = key_index(m.drop_last(), k);
        if i >= 0 {
            i
        } else if m.last().0 == k {
            m.len() - 1
        } else {
            -1
        }
    }
}

/// The value of the first entry with key `k`.
pub open spec fn lookup<V>(m: Seq<(VirtualRegister, V)>, k: VirtualRegister) -> Option<V> {
    if key_index(m, k) >= 0 {
        Some(m[key_index(m, k)].1)
    } else {
        None
    }
}

/// Each key occurs once.
pub open spec fn keys_unique<V>(m: Seq<(VirtualRegister, V)>) -> bool {
    forall|i: int, j: int| 0 <= i < m.len() && 0 <= j < m.len() && #[trigger] m[i].0 == #[trigger] m[j].0 ==> i == j
}

pub proof fn lemma_key_index<V>(m: Seq<(VirtualRegister, V)>, k: VirtualRegister)
    ensures
        -1 <= key_index(m, k) < m.len(),
        key_index(m, k) >= 0 ==> m[key_index(m, k)].0 == k,
        key_index(m, k) >= 0 ==> forall|j: int| 0 <= j < key_index(m, k) ==> m[j].0 != k,
        key_index(m, k) == -1 ==> forall|j: int| 0 <= j < m.len() ==> m[j].0 != k,
    decreases m.len(),
{
    if m.len() > 0 {
        lemma_key_index(m.drop_last(), k);
        assert forall|j: int| 0 <= j < m.len() - 1 implies m[j] == m.drop_last()[j] by {}
    }
}

/// The position of key `k`.
pub fn find_key<V>(m: &Vec<(VirtualRegister, V)>, k: VirtualRegister) -> (r: Option<usize>)
    ensures
        r matches Some(i) ==> i < m@.len() && i as int == key_index(m@, k),
        r is None ==> key_index(m@, k) == -1,
{
    proof {
        lemma_key_index(m@, k);
    }
    let mut i: usize = 0;
    while i < m.len()
        invariant
            i <= m@.len(),
            forall|j: int| 0 <= j < i ==> m@[j].0 != k,
            -1 <= key_index(m@, k) < m@.len(),
            key_index(m@, k) >= 0 ==> m@[key_index(m@, k)].0 == k,
            key_index(m@, k) >= 0 ==> forall|j: int| 0 <= j < key_index(m@, k) ==> m@[j].0 != k,
            key_index(m@, k) == -1 ==> forall|j: int| 0 <= j < m@.len() ==> m@[j].0 != k,
        decreases m.len() - i,
    {
        if m[i].0 == k {
            return Some(i);
        }
        i += 1;
    }
    None
}

/// Sets the value of key `k`, replacing an existing entry in place or
/// appending a new one.
pub fn put<V>(m: &mut Vec<(VirtualRegister, V)>, k: VirtualRegister, v: V)
    requires
        keys_unique(old(m)@),
    ensures
        keys_unique(final(m)@),
        lookup(final(m)@, k) == Some(v),
        forall|x: VirtualRegister| x != k ==> #[trigger] lookup(final(m)@, x) == lookup(old(m)@, x),
        forall|x: VirtualRegister| (#[trigger] key_index(final(m)@, x) >= 0) <==> key_index(old(m)@, x) >= 0 || x == k,
{
    let ghost before = m@;
    match find_key(m, k) {
        Some(i) => {
            proof {
                lemma_key_index(before, k);
            }
            m.set(i, (k, v));
            proof {
                assert forall|j: int| 0 <= j < before.len() implies (#[trigger] before[j]).0 == m@[j].0 by {}
                assert forall|x: VirtualRegister| #[trigger] key_index(m@, x) == key_index(before, x) by {
                    lemma_key_index_same_keys(before, m@, x);
                }
                assert forall|p: int, q: int| 0 <= p < m@.len() && 0 <= q < m@.len() && #[trigger] m@[p].0 == #[trigger] m@[q].0 implies p == q by {
                    assert(before[p].0 == m@[p].0 && before[q].0 == m@[q].0);
                }
            }
        },
        None => {
            proof {
                lemma_key_index(before, k);
            }
            m.push((k, v));
            proof {
                assert forall|p: int, q: int| 0 <= p < m@.len() && 0 <= q < m@.len() && #[trigger] m@[p].0 == #[trigger] m@[q].0 implies p == q by {
                    if p < before.len() && q < before.len() {
                        assert(before[p].0 == m@[p].0 && before[q].0 == m@[q].0);
                    }
                }
                lemma_key_index(before, k);
                assert forall|x: VirtualRegister| x != k implies #[trigger] key_index(m@, x) == key_index(before, x) by {
                    assert(m@.drop_last() =~= before);
                }
                assert(m@.drop_last() =~= before);
            }
        },
    }
    proof {
        lemma_key_index(m@, k);
        assert forall|x: VirtualRegister| x != k implies #[trigger] lookup(m@, x) == lookup(before, x) by {
            lemma_key_index(before, x);
            lemma_key_index(m@, x);
        }
    }
}

/// Lists with the same keys in the same places have the same key indices.
proof fn lemma_key_index_same_keys<V>(a: Seq<(VirtualRegister, V)>, b: Seq<(VirtualRegister, V)>, x: VirtualRegister)
    requires
        a.len() == b.len(),
        forall|i: int| 0 <= i < a.len() ==> (#[trigger] a[i]).0 == b[i].0,
    ensures
        key_index(a, x) == key_index(b, x),
    decreases a.len(),
{
    if a.len() > 0 {
        lemma_key_index_same_keys(a.drop_last(), b.drop_last(), x);
        assert(a.last().0 == b.last().0);
    }
}

} // verus!
