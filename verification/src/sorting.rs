//! Sorting a population and its objective rows, in lockstep, by the
//! competitive rank of one objective column.

use vstd::prelude::*;
use crate::scalar::{spec_rank, rank_of};

verus! {

/// The objective rows are ordered by competitive rank of column `obj_idx`:
/// row 0 is the best under the chosen objective.
pub open spec fn sorted_by_rank(objs: Seq<Vec<u64>>, obj_idx: int, minimize: bool) -> bool {
    forall|a: int, b: int|
        0 <= a < b < objs.len() ==> spec_rank(#[trigger] objs[a]@[obj_idx], minimize) <= spec_rank(
            #[trigger] objs[b]@[obj_idx],
            minimize,
        )
}

/// The (candidate, objective-row) pair at position `i` of `rows1`/`objs1`
/// appears, still aligned, somewhere in `rows0`/`objs0`.
pub open spec fn pair_appears(
    rows1: Seq<Vec<u64>>,
    objs1: Seq<Vec<u64>>,
    rows0: Seq<Vec<u64>>,
    objs0: Seq<Vec<u64>>,
    i: int,
) -> bool {
    exists|j: int|
        0 <= j < rows0.len() && rows1[i]@ == #[trigger] rows0[j]@ && objs1[i]@ == objs0[j]@
}

/// Every (candidate, objective-row) pair of `rows1`/`objs1` appears, still
/// aligned, somewhere in `rows0`/`objs0`.
pub open spec fn pairs_from(
    rows1: Seq<Vec<u64>>,
    objs1: Seq<Vec<u64>>,
    rows0: Seq<Vec<u64>>,
    objs0: Seq<Vec<u64>>,
) -> bool {
    &&& rows1.len() == objs1.len()
    &&& rows0.len() == objs0.len()
    &&& forall|i: int|
        0 <= i < rows1.len() ==> #[trigger] pair_appears(rows1, objs1, rows0, objs0, i)
}

/// `perm` is a permutation of `0 .. n`: a bijective source index for every
/// output position, so multiplicities are pinned exactly.
pub open spec fn is_sort_permutation(perm: Seq<int>, n: int) -> bool {
    &&& perm.len() == n
    &&& forall|k: int| 0 <= k < n ==> 0 <= #[trigger] perm[k] < n
    &&& forall|a: int, b: int|
        #![trigger perm[a], perm[b]]
        0 <= a < b < n ==> perm[a] != perm[b]
}

/// Sorts the population rows and their objective rows together, ascending by
/// competitive rank of objective column `obj_idx`. The output is the input
/// reordered by a permutation (stated in the ensures), so the multiset of
/// (row, objective-row) pairs is kept exactly; the sort is stable: pairs of
/// equal rank keep their original order.
#[verifier::loop_isolation(false)]
pub fn sort_by_objective(
    rows: &mut Vec<Vec<u64>>,
    objs: &mut Vec<Vec<u64>>,
    obj_idx: usize,
    minimize: bool,
)
    requires
        old(rows)@.len() == old(objs)@.len(),
        forall|i: int| 0 <= i < old(objs)@.len() ==> obj_idx < #[trigger] old(objs)@[i]@.len(),
    ensures
        final(rows)@.len() == old(rows)@.len(),
        final(objs)@.len() == old(objs)@.len(),
        sorted_by_rank(final(objs)@, obj_idx as int, minimize),
        pairs_from(final(rows)@, final(objs)@, old(rows)@, old(objs)@),
        pairs_from(old(rows)@, old(objs)@, final(rows)@, final(objs)@),
        exists|perm: Seq<int>|
            (#[trigger] is_sort_permutation(perm, old(rows)@.len() as int) && (forall|k: int|
                0 <= k < old(rows)@.len() ==> (#[trigger] final(rows)@[k])@ == old(rows)@[perm[k]]@
                    && final(objs)@[k]@ == old(objs)@[perm[k]]@) && (forall|a: int, b: int|
                #![trigger perm[a], perm[b]]
                0 <= a < b < old(rows)@.len() && spec_rank(
                    final(objs)@[a]@[obj_idx as int],
                    minimize,
                ) == spec_rank(final(objs)@[b]@[obj_idx as int], minimize) ==> perm[a] < perm[b])),
{
    let n = objs.len();
    let mut keys: Vec<u64> = Vec::new();
    let mut i: usize = 0;
    while i < n
        invariant
            *rows == *old(rows),
            *objs == *old(objs),
            0 <= i <= n,
            keys@.len() == i,
            forall|k: int|
                0 <= k < i ==> keys@[k] == spec_rank(#[trigger] objs@[k]@[obj_idx as int], minimize),
        decreases n - i,
    {
        let key = rank_of(objs[i][obj_idx], minimize);
        keys.push(key);
        i += 1;
    }

    let mut perm: Vec<usize> = Vec::new();
    let mut i: usize = 0;
    while i < n
        invariant
            *rows == *old(rows),
            *objs == *old(objs),
            0 <= i <= n,
            perm@.len() == i,
            forall|k: int| 0 <= k < i ==> #[trigger] perm@[k] == k,
        decreases n - i,
    {
        perm.push(i);
        i += 1;
    }
    proof {
        assert forall|v: usize| v < n implies perm@.contains(v) by {
            assert(perm@[v as int] == v);
        }
        assert forall|a: int, b: int| #![trigger perm@[a], perm@[b]] 0 <= a < b < n implies perm@[a]
            != perm@[b] by {
            assert(perm@[a] == a && perm@[b] == b);
        }
    }

    let mut i: usize = 1;
    while i < n
        invariant
            *rows == *old(rows),
            *objs == *old(objs),
            1 <= i <= n || (n == 0 && i == 1),
            perm@.len() == n,
            keys@.len() == n,
            forall|k: int|
                0 <= k < n ==> keys@[k] == spec_rank(#[trigger] objs@[k]@[obj_idx as int], minimize),
            forall|k: int| 0 <= k < n ==> #[trigger] perm@[k] < n,
            forall|v: usize| v < n ==> perm@.contains(v),
            forall|a: int, b: int|
                #![trigger perm@[a], perm@[b]]
                0 <= a < b < n ==> perm@[a] != perm@[b],
            forall|k: int| i <= k < n ==> #[trigger] perm@[k] == k,
            forall|k: int| 0 <= k < i && k < n ==> #[trigger] perm@[k] < i,
            forall|a: int, b: int|
                0 <= a < b < i ==> keys@[#[trigger] perm@[a] as int]
                    <= keys@[#[trigger] perm@[b] as int],
            forall|a: int, b: int|
                #![trigger perm@[a], perm@[b]]
                0 <= a < b < i ==> (keys@[perm@[a] as int] < keys@[perm@[b] as int] || (keys@[perm@[a] as int] == keys@[perm@[b] as int] && perm@[a] < perm@[b])),
        decreases n - i,
    {
        let mut j: usize = i;
        while j > 0 && keys[perm[j - 1]] > keys[perm[j]]
            invariant
                0 <= j <= i < n,
                perm@.len() == n,
                keys@.len() == n,
                forall|k: int| 0 <= k < n ==> #[trigger] perm@[k] < n,
                forall|v: usize| v < n ==> perm@.contains(v),
                forall|a: int, b: int|
                    #![trigger perm@[a], perm@[b]]
                    0 <= a < b < n ==> perm@[a] != perm@[b],
                perm@[j as int] == i,
                forall|k: int| 0 <= k <= i && k != j ==> #[trigger] perm@[k] < i,
                forall|k: int| i < k < n ==> #[trigger] perm@[k] == k,
                forall|a: int, b: int|
                    0 <= a < b <= i && a != j && b != j ==> keys@[#[trigger] perm@[a] as int]
                        <= keys@[#[trigger] perm@[b] as int],
                forall|a: int, b: int|
                    #![trigger perm@[a], perm@[b]]
                    0 <= a < b <= i && a != j && b != j ==> (keys@[perm@[a] as int] < keys@[perm@[b] as int] || (keys@[perm@[a] as int] == keys@[perm@[b] as int] && perm@[a]
                        < perm@[b])),
                forall|b: int|
                    j < b <= i ==> keys@[perm@[j as int] as int] < keys@[#[trigger] perm@[b] as int],
            decreases j,
        {
            let pa = perm[j - 1];
            let pb = perm[j];
            let ghost before = perm@;
            perm.set(j - 1, pb);
            perm.set(j, pa);
            proof {
                assert forall|v: usize| v < n implies perm@.contains(v) by {
                    assert(before.contains(v));
                    let k = choose|k: int| 0 <= k < before.len() && before[k] == v;
                    if k == j - 1 {
                        assert(perm@[j as int] == v);
                    } else if k == j {
                        assert(perm@[j - 1] == v);
                    } else {
                        assert(perm@[k] == v);
                    }
                }
                assert forall|a: int, b: int| #![trigger perm@[a], perm@[b]] 0 <= a < b
                    < n implies perm@[a] != perm@[b] by {
                    let a0: int = if a == j - 1 {
                        j as int
                    } else if a == j {
                        j - 1
                    } else {
                        a
                    };
                    let b0: int = if b == j - 1 {
                        j as int
                    } else if b == j {
                        j - 1
                    } else {
                        b
                    };
                    assert(perm@[a] == before[a0] && perm@[b] == before[b0]);
                    assert(a0 != b0);
                    assert(before[a0] != before[b0]);
                }
            }
            j -= 1;
        }
        proof {
            assert forall|a: int, b: int| 0 <= a < b <= i implies keys@[#[trigger] perm@[a] as int]
                <= keys@[#[trigger] perm@[b] as int] by {
                if a == j {
                    if j > 0 {
                        assert(keys@[perm@[j - 1] as int] <= keys@[perm@[b] as int]);
                    }
                } else if b == j {
                    assert(j > 0);
                    assert(keys@[perm@[a] as int] <= keys@[perm@[j - 1] as int]);
                }
            }
            assert forall|a: int, b: int| #![trigger perm@[a], perm@[b]] 0 <= a < b
                <= i implies (keys@[perm@[a] as int] < keys@[perm@[b] as int] || (keys@[perm@[a] as int] == keys@[perm@[b] as int] && perm@[a] < perm@[b])) by {
                if a != j && b != j {
                } else if b == j {
                    // The moved pair settled at j; everything before it has
                    // a smaller key or, at equal keys, a smaller source
                    // index (the mover's source index i is the largest).
                    assert(j > 0);
                    assert(perm@[b] == i);
                    assert(perm@[a] < i);
                    if a < j - 1 {
                        assert(keys@[perm@[a] as int] <= keys@[perm@[j - 1] as int]);
                    }
                    assert(keys@[perm@[j - 1] as int] <= keys@[perm@[j as int] as int]);
                } else {
                    assert(a == j && b > j);
                    assert(keys@[perm@[j as int] as int] < keys@[perm@[b] as int]);
                }
            }
            assert forall|k: int| 0 <= k < i + 1 implies #[trigger] perm@[k] < i + 1 by {
                if k != j {
                    assert(perm@[k] < i);
                }
            }
        }
        i += 1;
    }

    let mut new_rows: Vec<Vec<u64>> = Vec::new();
    let mut new_objs: Vec<Vec<u64>> = Vec::new();
    let mut k: usize = 0;
    while k < n
        invariant
            *rows == *old(rows),
            *objs == *old(objs),
            0 <= k <= n,
            perm@.len() == n,
            keys@.len() == n,
            forall|m: int| 0 <= m < n ==> #[trigger] perm@[m] < n,
            new_rows@.len() == k,
            new_objs@.len() == k,
            forall|m: int| 0 <= m < k ==> (#[trigger] new_rows@[m])@ == rows@[perm@[m] as int]@,
            forall|m: int| 0 <= m < k ==> (#[trigger] new_objs@[m])@ == objs@[perm@[m] as int]@,
        decreases n - k,
    {
        let p = perm[k];
        let row = rows[p].clone();
        let orow = objs[p].clone();
        proof {
            assert(row@ =~= rows@[p as int]@);
            assert(orow@ =~= objs@[p as int]@);
        }
        new_rows.push(row);
        new_objs.push(orow);
        k += 1;
    }

    proof {
        assert forall|a: int, b: int|
            0 <= a < b < new_objs@.len() implies spec_rank(
            #[trigger] new_objs@[a]@[obj_idx as int],
            minimize,
        ) <= spec_rank(#[trigger] new_objs@[b]@[obj_idx as int], minimize) by {
            assert(new_objs@[a]@ == objs@[perm@[a] as int]@);
            assert(new_objs@[b]@ == objs@[perm@[b] as int]@);
            assert(keys@[perm@[a] as int] == spec_rank(
                objs@[perm@[a] as int]@[obj_idx as int],
                minimize,
            ));
            assert(keys@[perm@[b] as int] == spec_rank(
                objs@[perm@[b] as int]@[obj_idx as int],
                minimize,
            ));
            assert(keys@[perm@[a] as int] <= keys@[perm@[b] as int]);
        }
        assert forall|idx: int| 0 <= idx < new_rows@.len() implies #[trigger] pair_appears(
            new_rows@,
            new_objs@,
            rows@,
            objs@,
            idx,
        ) by {
            let j = perm@[idx] as int;
            assert(new_rows@[idx]@ == rows@[j]@ && new_objs@[idx]@ == objs@[j]@);
        }
        assert forall|j: int| 0 <= j < rows@.len() implies #[trigger] pair_appears(
            rows@,
            objs@,
            new_rows@,
            new_objs@,
            j,
        ) by {
            assert(perm@.contains(j as usize));
            let idx = choose|idx: int| 0 <= idx < perm@.len() && perm@[idx] == j as usize;
            assert(rows@[j]@ == new_rows@[idx]@ && objs@[j]@ == new_objs@[idx]@);
        }

        let pm = perm@.map_values(|v: usize| v as int);
        assert(pm.len() == n);
        assert forall|k2: int| 0 <= k2 < n implies 0 <= #[trigger] pm[k2] < n by {
            assert(pm[k2] == perm@[k2] as int);
        }
        assert forall|a: int, b: int| #![trigger pm[a], pm[b]] 0 <= a < b < n implies pm[a]
            != pm[b] by {
            assert(pm[a] == perm@[a] as int && pm[b] == perm@[b] as int);
            assert(perm@[a] != perm@[b]);
        }
        assert(is_sort_permutation(pm, n as int));
        assert forall|k2: int| 0 <= k2 < n implies (#[trigger] new_rows@[k2])@ == rows@[pm[k2]]@
            && new_objs@[k2]@ == objs@[pm[k2]]@ by {
            assert(pm[k2] == perm@[k2] as int);
        }
        assert forall|a: int, b: int|
            #![trigger pm[a], pm[b]]
            0 <= a < b < n && spec_rank(new_objs@[a]@[obj_idx as int], minimize) == spec_rank(
                new_objs@[b]@[obj_idx as int],
                minimize,
            ) implies pm[a] < pm[b] by {
            assert(pm[a] == perm@[a] as int && pm[b] == perm@[b] as int);
            assert(new_objs@[a]@ == objs@[perm@[a] as int]@);
            assert(new_objs@[b]@ == objs@[perm@[b] as int]@);
            assert(keys@[perm@[a] as int] == spec_rank(
                objs@[perm@[a] as int]@[obj_idx as int],
                minimize,
            ));
            assert(keys@[perm@[b] as int] == spec_rank(
                objs@[perm@[b] as int]@[obj_idx as int],
                minimize,
            ));
            if n > 1 {
                assert(keys@[perm@[a] as int] < keys@[perm@[b] as int] || (keys@[perm@[a] as int]
                    == keys@[perm@[b] as int] && perm@[a] < perm@[b]));
            }
        }
    }

    *rows = new_rows;
    *objs = new_objs;
}

} // verus!
