use std::collections::{HashMap, HashSet};
use vstd::prelude::*;

use crate::point::{contains_pos, distinct_positions, position_set, value_at, DataPoint};

verus! {

/// The axis positions of `[lo, hi]` not covered by `d`, in ascending order.
pub open spec fn missing_positions(d: Seq<DataPoint>, lo: int, hi: int) -> Seq<int>
    decreases hi + 1 - lo,
{
    if lo > hi {
        Seq::empty()
    } else {
        let rest = missing_positions(d, lo, hi - 1);
        if contains_pos(d, hi) {
            rest
        } else {
            rest.push(hi)
        }
    }
}

/// How many positions of `[lo, hi]` are covered by `d`.
pub open spec fn known_count(d: Seq<DataPoint>, lo: int, hi: int) -> int
    decreases hi + 1 - lo,
{
    if lo > hi {
        0
    } else {
        known_count(d, lo, hi - 1) + if contains_pos(d, hi) {
            1int
        } else {
            0int
        }
    }
}

/// The positions reported missing lie in `[lo, hi]`, are strictly ascending,
/// are not covered by `d`, and every uncovered position of `[lo, hi]` is
/// among them.
pub proof fn lemma_missing_positions_characterization(d: Seq<DataPoint>, lo: int, hi: int)
    ensures
        forall|k: int| 0 <= k < missing_positions(d, lo, hi).len() ==> lo <= #[trigger] missing_positions(
            d,
            lo,
            hi,
        )[k] <= hi && !contains_pos(d, missing_positions(d, lo, hi)[k]),
        forall|k1: int, k2: int|
            0 <= k1 < k2 < missing_positions(d, lo, hi).len() ==> missing_positions(d, lo, hi)[k1]
                < missing_positions(d, lo, hi)[k2],
        forall|p: int|
            lo <= p <= hi && !contains_pos(d, p) ==> missing_positions(d, lo, hi).contains(p),
    decreases hi + 1 - lo,
{
    if lo <= hi {
        lemma_missing_positions_characterization(d, lo, hi - 1);
        let rest = missing_positions(d, lo, hi - 1);
        let m = missing_positions(d, lo, hi);
        if !contains_pos(d, hi) {
            assert(m == rest.push(hi));
            assert(forall|k: int| 0 <= k < rest.len() ==> m[k] == rest[k]);
            assert(m[m.len() - 1] == hi);
        }
        assert forall|p: int| lo <= p <= hi && !contains_pos(d, p) implies m.contains(p) by {
            if p <= hi - 1 {
                let k = choose|k: int| 0 <= k < rest.len() && rest[k] == p;
                assert(m[k] == p);
            } else {
                assert(m[m.len() - 1] == p);
            }
        }
    }
}

/// Missing and covered positions together account for the whole range.
pub proof fn lemma_missing_plus_known(d: Seq<DataPoint>, lo: int, hi: int)
    ensures
        missing_positions(d, lo, hi).len() + known_count(d, lo, hi) == if lo > hi {
            0int
        } else {
            hi - lo + 1
        },
    decreases hi + 1 - lo,
{
    if lo <= hi {
        lemma_missing_plus_known(d, lo, hi - 1);
    }
}

proof fn lemma_known_count_range(d: Seq<DataPoint>, lo: int, hi: int)
    ensures
        position_set(d).intersect(vstd::set_lib::set_int_range(lo, hi + 1)).finite(),
        known_count(d, lo, hi) == position_set(d).intersect(
            vstd::set_lib::set_int_range(lo, hi + 1),
        ).len(),
    decreases hi + 1 - lo,
{
    broadcast use vstd::set::group_set_axioms;

    if lo > hi {
        assert(position_set(d).intersect(vstd::set_lib::set_int_range(lo, hi + 1))
            =~= Set::empty());
    } else {
        lemma_known_count_range(d, lo, hi - 1);
        let s_prev = position_set(d).intersect(vstd::set_lib::set_int_range(lo, hi));
        let s_full = position_set(d).intersect(vstd::set_lib::set_int_range(lo, hi + 1));
        if contains_pos(d, hi) {
            assert(s_full =~= s_prev.insert(hi));
            assert(!s_prev.contains(hi));
        } else {
            assert(s_full =~= s_prev);
        }
    }
}

/// Over the full axis range of a dataset with distinct positions, the number
/// of missing positions is the range size less the dataset size.
pub proof fn lemma_missing_positions_len(d: Seq<DataPoint>, lo: int, hi: int)
    requires
        d.len() > 0,
        distinct_positions(d),
        forall|i: int| 0 <= i < d.len() ==> lo <= #[trigger] d[i].x <= hi,
    ensures
        missing_positions(d, lo, hi).len() == (hi - lo + 1) - d.len(),
{
    crate::point::lemma_position_set_len(d);
    lemma_known_count_range(d, lo, hi);
    lemma_missing_plus_known(d, lo, hi);
    assert(position_set(d).intersect(vstd::set_lib::set_int_range(lo, hi + 1))
        =~= position_set(d)) by {
        assert forall|p: int| position_set(d).contains(p) implies vstd::set_lib::set_int_range(
            lo,
            hi + 1,
        ).contains(p) by {
            let i = choose|i: int| 0 <= i < d.len() && d[i].x == p;
            assert(lo <= d[i].x <= hi);
        }
    }
    assert(lo <= d[0].x <= hi);
}

/// The greatest covered position strictly below `p`, bottoming out at `lo`.
pub open spec fn prev_known(d: Seq<DataPoint>, lo: int, p: int) -> int
    decreases p - lo,
{
    if p <= lo {
        lo
    } else if contains_pos(d, p - 1) {
        p - 1
    } else {
        prev_known(d, lo, p - 1)
    }
}

/// The least covered position strictly above `p`, topping out at `hi`.
pub open spec fn next_known(d: Seq<DataPoint>, p: int, hi: int) -> int
    decreases hi - p,
{
    if p >= hi {
        hi
    } else if contains_pos(d, p + 1) {
        p + 1
    } else {
        next_known(d, p + 1, hi)
    }
}

/// `prev_known` finds `a` when `a` is covered and nothing between `a` and `p` is.
pub proof fn lemma_prev_known_exact(d: Seq<DataPoint>, lo: int, a: int, p: int)
    requires
        lo <= a < p,
        contains_pos(d, a),
        forall|q: int| a < q < p ==> !contains_pos(d, q),
    ensures
        prev_known(d, lo, p) == a,
    decreases p - a,
{
    if p - 1 > a {
        lemma_prev_known_exact(d, lo, a, p - 1);
    }
}

/// `next_known` finds `b` when `b` is covered and nothing between `p` and `b` is.
pub proof fn lemma_next_known_exact(d: Seq<DataPoint>, p: int, b: int, hi: int)
    requires
        p < b <= hi,
        contains_pos(d, b),
        forall|q: int| p < q < b ==> !contains_pos(d, q),
    ensures
        next_known(d, p, hi) == b,
    decreases b - p,
{
    if p + 1 < b {
        lemma_next_known_exact(d, p + 1, b, hi);
    }
}

/// The axis positions covered by `dataset`, as a hash set.
pub(crate) fn known_position_set(dataset: &Vec<DataPoint>) -> (s: HashSet<i64>)
    ensures
        forall|p: i64| #[trigger] s@.contains(p) <==> contains_pos(dataset@, p as int),
{
    broadcast use vstd::std_specs::hash::group_hash_axioms;

    let mut s: HashSet<i64> = HashSet::new();
    let ghost d = dataset@;
    let mut i: usize = 0;
    while i < dataset.len()
        invariant
            i <= d.len(),
            d == dataset@,
            forall|p: i64| #[trigger] s@.contains(p) <==> contains_pos(d.take(i as int), p as int),
        decreases d.len() - i,
    {
        let ghost prefix = d.take(i as int);
        s.insert(dataset[i].x);
        let ghost next_prefix = d.take(i + 1 as int);
        proof {
            assert(next_prefix.drop_last() =~= prefix);
            assert(next_prefix.last() == d[i as int]);
            assert forall|p: i64| #[trigger] s@.contains(p) implies contains_pos(
                next_prefix,
                p as int,
            ) by {
                if p == d[i as int].x {
                    assert(next_prefix[i as int].x == p);
                } else {
                    let k = choose|k: int| 0 <= k < prefix.len() && prefix[k].x == p;
                    assert(next_prefix[k].x == p);
                }
            }
            assert forall|p: i64| contains_pos(next_prefix, p as int) implies s@.contains(p) by {
                let k = choose|k: int| 0 <= k < next_prefix.len() && next_prefix[k].x == p;
                if k < i as int {
                    assert(prefix[k].x == p);
                }
            }
        }
        i = i + 1;
    }
    proof {
        assert(d.take(d.len() as int) =~= d);
    }
    s
}

/// A map from each covered axis position of `dataset` to the value bits there.
pub(crate) fn position_map(dataset: &Vec<DataPoint>) -> (m: HashMap<i64, u64>)
    requires
        distinct_positions(dataset@),
    ensures
        forall|p: i64| #[trigger] m@.contains_key(p) <==> contains_pos(dataset@, p as int),
        forall|p: i64| #[trigger] m@.contains_key(p) ==> m@[p] == value_at(dataset@, p as int),
{
    broadcast use vstd::std_specs::hash::group_hash_axioms;

    let mut m: HashMap<i64, u64> = HashMap::new();
    let ghost d = dataset@;
    let mut i: usize = 0;
    while i < dataset.len()
        invariant
            i <= d.len(),
            d == dataset@,
            forall|p: i64| #[trigger] m@.contains_key(p) <==> contains_pos(
                d.take(i as int),
                p as int,
            ),
            forall|p: i64| #[trigger] m@.contains_key(p) ==> m@[p] == value_at(
                d.take(i as int),
                p as int,
            ),
        decreases d.len() - i,
    {
        let ghost prefix = d.take(i as int);
        m.insert(dataset[i].x, dataset[i].y);
        let ghost next_prefix = d.take(i + 1 as int);
        proof {
            assert(next_prefix.drop_last() =~= prefix);
            assert(next_prefix.last() == d[i as int]);
            assert forall|p: i64| #[trigger] m@.contains_key(p) implies contains_pos(
                next_prefix,
                p as int,
            ) by {
                if p == d[i as int].x {
                    assert(next_prefix[i as int].x == p);
                } else {
                    let k = choose|k: int| 0 <= k < prefix.len() && prefix[k].x == p;
                    assert(next_prefix[k].x == p);
                }
            }
            assert forall|p: i64| contains_pos(next_prefix, p as int) implies m@.contains_key(
                p,
            ) by {
                let k = choose|k: int| 0 <= k < next_prefix.len() && next_prefix[k].x == p;
                if k < i as int {
                    assert(prefix[k].x == p);
                }
            }
        }
        i = i + 1;
    }
    proof {
        assert(d.take(d.len() as int) =~= d);
    }
    m
}

/// The missing axis positions of `[lo, hi]`, ascending, as a vector.
pub(crate) fn missing_vec(dataset: &Vec<DataPoint>, lo: i64, hi: i64, count: usize) -> (r: Vec<
    i64,
>)
    requires
        lo <= hi,
        count == hi - lo + 1,
    ensures
        r@.len() == missing_positions(dataset@, lo as int, hi as int).len(),
        forall|k: int| 0 <= k < r@.len() ==> r@[k] as int == missing_positions(
            dataset@,
            lo as int,
            hi as int,
        )[k],
{
    broadcast use vstd::std_specs::hash::group_hash_axioms;

    let known = known_position_set(dataset);
    let ghost d = dataset@;
    let mut r: Vec<i64> = Vec::new();
    let mut k: usize = 0;
    while k < count
        invariant
            k <= count,
            d == dataset@,
            lo <= hi,
            count == hi - lo + 1,
            forall|p: i64| #[trigger] known@.contains(p) <==> contains_pos(d, p as int),
            r@.len() == missing_positions(d, lo as int, lo + k - 1).len(),
            forall|j: int| 0 <= j < r@.len() ==> r@[j] as int == missing_positions(
                d,
                lo as int,
                lo + k - 1,
            )[j],
        decreases count - k,
    {
        let p: i64 = ((lo as i128) + (k as i128)) as i64;
        assert(p as int == lo + k);
        let ghost prev = missing_positions(d, lo as int, lo + k - 1);
        let ghost cur = missing_positions(d, lo as int, lo + k);
        if !known.contains(&p) {
            r.push(p);
            proof {
                assert(cur == prev.push(p as int));
            }
        } else {
            proof {
                assert(cur == prev);
            }
        }
        k = k + 1;
    }
    r
}

} // verus!
