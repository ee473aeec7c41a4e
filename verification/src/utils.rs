//! In-place partitioning of a vector around a predicate, together with the
//! swap primitive and the permutation lemmas the rest of the crate builds on.

use vstd::prelude::*;

verus! {

/// Exchanges the elements at positions `i` and `j`; every other position is
/// untouched.
pub fn vec_swap<T>(v: &mut Vec<T>, i: usize, j: usize)
    requires
        i < old(v).len(),
        j < old(v).len(),
    ensures
        final(v)@ == old(v)@.update(i as int, old(v)@[j as int]).update(
            j as int,
            old(v)@[i as int],
        ),
        final(v)@.len() == old(v)@.len(),
{
    if i == j {
        proof {
            assert(v@.update(i as int, v@[j as int]).update(j as int, v@[i as int]) =~= v@);
        }
        return ;
    }
    // a slice swap has no specification to verify against; remove and
    // insert do, at the price of shifting the elements between i and j
    let (lo, hi) = if i < j {
        (i, j)
    } else {
        (j, i)
    };
    let b = v.remove(hi);
    let a = v.remove(lo);
    v.insert(lo, b);
    v.insert(hi, a);
    proof {
        assert(v@ =~= old(v)@.update(i as int, old(v)@[j as int]).update(
            j as int,
            old(v)@[i as int],
        ));
    }
}

/// Swapping two positions of a sequence leaves its multiset of elements
/// unchanged.
pub proof fn lemma_swap_preserves_multiset<T>(s: Seq<T>, i: int, j: int)
    requires
        0 <= i < s.len(),
        0 <= j < s.len(),
    ensures
        s.update(i, s[j]).update(j, s[i]).to_multiset() == s.to_multiset(),
{
    broadcast use vstd::seq_lib::group_to_multiset_ensures;
    broadcast use vstd::multiset::group_multiset_properties;

    if i == j {
        assert(s.update(i, s[j]).update(j, s[i]) =~= s);
    } else {
        let t = s.update(i, s[j]);
        assert(t[j] == s[j]);
        assert(t.update(j, s[i]).to_multiset() =~= s.to_multiset());
    }
}

/// A swap of two positions inside `[start, end)` leaves the multiset of that
/// subrange unchanged, and every position outside it untouched.
pub proof fn lemma_swap_in_subrange<T>(s: Seq<T>, start: int, end: int, i: int, j: int)
    requires
        0 <= start <= i < end <= s.len(),
        start <= j < end,
    ensures
        s.update(i, s[j]).update(j, s[i]).subrange(start, end).to_multiset() == s.subrange(
            start,
            end,
        ).to_multiset(),
        forall|k: int|
            0 <= k < s.len() && !(start <= k < end) ==> s.update(i, s[j]).update(j, s[i])[k]
                == s[k],
{
    let sub = s.subrange(start, end);
    let swapped = s.update(i, s[j]).update(j, s[i]);
    assert(swapped.subrange(start, end) =~= sub.update(i - start, sub[j - start]).update(
        j - start,
        sub[i - start],
    ));
    lemma_swap_preserves_multiset(sub, i - start, j - start);
}

/// Reorders `data[start..end)` so that every element the predicate accepts
/// comes before every element it rejects, and returns the boundary: positions
/// `[start, split)` hold accepted elements, `[split, end)` rejected ones.
/// The range keeps the same elements (as a multiset) and everything outside
/// it is untouched.
pub fn partition<T, P: Fn(&T) -> bool>(
    data: &mut Vec<T>,
    start: usize,
    end: usize,
    predicate: P,
) -> (split: usize)
    requires
        start <= end <= old(data).len(),
        forall|t: &T| call_requires(predicate, (t,)),
    ensures
        start <= split <= end,
        final(data)@.len() == old(data)@.len(),
        forall|k: int|
            0 <= k < old(data)@.len() && !(start <= k < end) ==> final(data)@[k] == old(
                data,
            )@[k],
        final(data)@.subrange(start as int, end as int).to_multiset() == old(data)@.subrange(
            start as int,
            end as int,
        ).to_multiset(),
        forall|k: int|
            start <= k < split ==> call_ensures(predicate, (&final(data)@[k],), true),
        forall|k: int|
            split <= k < end ==> call_ensures(predicate, (&final(data)@[k],), false),
{
    let ghost orig = data@;
    let mut l = start;
    let mut r = end;
    loop
        invariant
            orig == old(data)@,
            start <= l <= r <= end <= data@.len(),
            data@.len() == orig.len(),
            forall|t: &T| call_requires(predicate, (t,)),
            forall|k: int| 0 <= k < orig.len() && !(start <= k < end) ==> data@[k] == orig[k],
            data@.subrange(start as int, end as int).to_multiset() == orig.subrange(
                start as int,
                end as int,
            ).to_multiset(),
            forall|k: int| start <= k < l ==> call_ensures(predicate, (&data@[k],), true),
            forall|k: int| r <= k < end ==> call_ensures(predicate, (&data@[k],), false),
        decreases r - l,
    {
        let ghost l0 = l;
        while l < r
            invariant
                l0 <= l,
                start <= l <= r <= end <= data@.len(),
                forall|t: &T| call_requires(predicate, (t,)),
                forall|k: int| start <= k < l ==> call_ensures(predicate, (&data@[k],), true),
            ensures
                l0 <= l,
                start <= l <= r,
                forall|k: int| start <= k < l ==> call_ensures(predicate, (&data@[k],), true),
                l < r ==> call_ensures(predicate, (&data@[l as int],), false),
            decreases r - l,
        {
            if predicate(&data[l]) {
                l = l + 1;
            } else {
                break ;
            }
        }
        let ghost r0 = r;
        while l < r
            invariant
                r <= r0,
                start <= l <= r <= end <= data@.len(),
                forall|t: &T| call_requires(predicate, (t,)),
                forall|k: int| r <= k < end ==> call_ensures(predicate, (&data@[k],), false),
            ensures
                r <= r0,
                l <= r <= end,
                forall|k: int| r <= k < end ==> call_ensures(predicate, (&data@[k],), false),
                l < r ==> call_ensures(predicate, (&data@[r - 1],), true),
            decreases r - l,
        {
            if predicate(&data[r - 1]) {
                break ;
            } else {
                r = r - 1;
            }
        }
        if l >= r {
            return l;
        }
        if r - l == 1 {
            // the scans met on one element and its two predicate calls
            // disagreed (the predicate need not be deterministic); leave it
            // on the rejected side, where its last answer put it
            return l;
        }
        proof {
            lemma_swap_in_subrange(data@, start as int, end as int, l as int, (r - 1) as int);
        }
        vec_swap(data, l, r - 1);
        l = l + 1;
        r = r - 1;
    }
}

} // verus!
