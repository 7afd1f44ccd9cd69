//! Ownership of locations by partitions, for `--partition`.
//!
//! A partition is a set of indices into the list of unique locations. The
//! pipeline scatters each partition's results back by asking, for every
//! location, which partition owns it.
use vstd::prelude::*;

verus! {

/// Whether partition `q` lists location `i`.
pub open spec fn lists(members: Seq<Vec<usize>>, q: int, i: int) -> bool {
    members[q]@.contains(i as usize)
}

/// `o` is the owner of location `i` among the first `upto` partitions: the
/// last of them that lists it, or nothing when none does.
pub open spec fn owned_among(members: Seq<Vec<usize>>, upto: int, i: int, o: Option<usize>) -> bool {
    match o {
        None => forall|q: int| 0 <= q < upto ==> !lists(members, q, i),
        Some(a) => a < upto && lists(members, a as int, i) && forall|q: int|
            a < q < upto ==> !lists(members, q, i),
    }
}

/// For each location, the partition that owns it, ready for the pipeline's
/// scatter-gather join. `members[p]` lists the locations of partition `p`;
/// a location listed by several partitions is owned by the last of them, and
/// one listed by none (a location without usable coordinates) is owned by
/// nothing.
pub fn owners(members: &[Vec<usize>], n: usize) -> (r: Vec<Option<usize>>)
    requires
        forall|p: int, k: int|
            0 <= p < members.len() && 0 <= k < members@[p].len() ==> #[trigger] members@[p]@[k] < n,
    ensures
        r.len() == n,
        forall|i: int| 0 <= i < n ==> owned_among(members@, members.len() as int, i, #[trigger] r@[i]),
{
    let mut owner: Vec<Option<usize>> = Vec::new();
    let mut i: usize = 0;
    while i < n
        invariant
            i <= n,
            owner.len() == i,
            forall|k: int| 0 <= k < i ==> owner@[k] is None,
        decreases n - i,
    {
        owner.push(None);
        i = i + 1;
    }
    let mut p: usize = 0;
    while p < members.len()
        invariant
            p <= members.len(),
            owner.len() == n,
            forall|a: int, k: int|
                0 <= a < members.len() && 0 <= k < members@[a].len() ==> #[trigger] members@[a]@[k]
                    < n,
            forall|i: int| 0 <= i < n ==> owned_among(members@, p as int, i, #[trigger] owner@[i]),
        decreases members.len() - p,
    {
        let part = &members[p];
        let mut k: usize = 0;
        while k < part.len()
            invariant
                p < members.len(),
                part == &members@[p as int],
                k <= part.len(),
                owner.len() == n,
                forall|a: int, j: int|
                    0 <= a < members.len() && 0 <= j < members@[a].len() ==> #[trigger] members@[a]@[j]
                        < n,
                forall|i: int|
                    0 <= i < n ==> if part@.take(k as int).contains(i as usize) {
                        #[trigger] owner@[i] == Some(p)
                    } else {
                        owned_among(members@, p as int, i, owner@[i])
                    },
            decreases part.len() - k,
        {
            let loc = part[k];
            assert(members@[p as int]@[k as int] == loc);
            let ghost before = owner@;
            owner.set(loc, Some(p));
            k = k + 1;
            assert forall|i: int| 0 <= i < n implies if part@.take(k as int).contains(i as usize) {
                #[trigger] owner@[i] == Some(p)
            } else {
                owned_among(members@, p as int, i, owner@[i])
            } by {
                assert(part@.take(k as int) =~= part@.take(k - 1).push(loc));
                if i == loc as int {
                    assert(part@.take(k as int)[k - 1] == loc);
                } else {
                    assert(owner@[i] == before[i]);
                    if part@.take(k as int).contains(i as usize) {
                        let w = choose|w: int|
                            0 <= w < part@.take(k as int).len() && part@.take(k as int)[w]
                                == i as usize;
                        assert(w < k - 1);
                        assert(part@.take(k - 1)[w] == i as usize);
                    }
                }
            }
        }
        assert(part@.take(part.len() as int) =~= part@);
        p = p + 1;
        assert forall|i: int| 0 <= i < n implies owned_among(members@, p as int, i, #[trigger] owner@[i]) by {
            if !part@.contains(i as usize) {
                assert(!lists(members@, p - 1, i));
            }
        }
    }
    owner
}

/// Partitions that share no location leave each location owned by exactly
/// the partition that lists it.
pub proof fn lemma_disjoint_partitions_own_their_members(
    members: Seq<Vec<usize>>,
    i: int,
    o: Option<usize>,
    p: int,
)
    requires
        owned_among(members, members.len() as int, i, o),
        forall|a: int, b: int|
            0 <= a < b < members.len() && #[trigger] lists(members, a, i) ==> !#[trigger] lists(
                members,
                b,
                i,
            ),
        0 <= p < members.len(),
    ensures
        (o matches Some(a) && a as int == p) <==> lists(members, p, i),
{
    if lists(members, p, i) {
        match o {
            None => {},
            Some(a) => {
                if (a as int) < p {
                    assert(lists(members, a as int, i));
                }
            },
        }
    }
}

} // verus!
