use vstd::prelude::*;

verus! {

/// One sample of a dataset: `x` is a position on the integer index axis and
/// `y` is the IEEE 754 binary64 bit pattern of the value at that position.
/// Values are carried through the library as opaque bit patterns; equality of
/// values is exact, bit for bit.
#[derive(Clone, Copy, Debug, PartialEq, Eq, Structural)]
pub struct DataPoint {
    pub x: i64,
    pub y: u64,
}

impl DataPoint {
    pub fn new(x: i64, y: u64) -> (r: DataPoint)
        ensures
            r.x == x,
            r.y == y,
    {
        DataPoint { x, y }
    }
}

/// Whether some point of `d` sits at axis position `p`.
pub open spec fn contains_pos(d: Seq<DataPoint>, p: int) -> bool {
    exists|i: int| 0 <= i < d.len() && d[i].x == p
}

/// The value bits stored at position `p`.  Meaningful when `contains_pos(d, p)`
/// holds; when several points share a position, the latest one wins.
pub open spec fn value_at(d: Seq<DataPoint>, p: int) -> u64
    decreases d.len(),
{
    if d.len() == 0 {
        0
    } else if d.last().x == p {
        d.last().y
    } else {
        value_at(d.drop_last(), p)
    }
}

/// Every point of `d` sits at an axis position of its own.
pub open spec fn distinct_positions(d: Seq<DataPoint>) -> bool {
    forall|i: int, j: int| 0 <= i < j < d.len() ==> d[i].x != d[j].x
}

/// The set of axis positions covered by `d`.
pub open spec fn position_set(d: Seq<DataPoint>) -> Set<int> {
    Set::new(|p: int| contains_pos(d, p))
}

/// The least axis position of a non-empty `d` (0 for an empty sequence).
pub open spec fn min_pos(d: Seq<DataPoint>) -> int
    decreases d.len(),
{
    if d.len() == 0 {
        0
    } else if d.len() == 1 {
        d[0].x as int
    } else {
        let m = min_pos(d.drop_last());
        if d.last().x < m {
            d.last().x as int
        } else {
            m
        }
    }
}

/// The greatest axis position of a non-empty `d` (0 for an empty sequence).
pub open spec fn max_pos(d: Seq<DataPoint>) -> int
    decreases d.len(),
{
    if d.len() == 0 {
        0
    } else if d.len() == 1 {
        d[0].x as int
    } else {
        let m = max_pos(d.drop_last());
        if d.last().x > m {
            d.last().x as int
        } else {
            m
        }
    }
}

/// Every position of `d` lies between `min_pos(d)` and `max_pos(d)`.
pub proof fn lemma_min_max_bound(d: Seq<DataPoint>)
    requires
        d.len() > 0,
    ensures
        forall|i: int| 0 <= i < d.len() ==> min_pos(d) <= #[trigger] d[i].x <= max_pos(d),
    decreases d.len(),
{
    if d.len() > 1 {
        lemma_min_max_bound(d.drop_last());
        assert forall|i: int| 0 <= i < d.len() implies min_pos(d) <= #[trigger] d[i].x
            <= max_pos(d) by {
            if i < d.len() - 1 {
                assert(d.drop_last()[i] == d[i]);
            }
        }
    }
}

/// The bounds of a non-empty `d` are themselves positions of `d`.
pub proof fn lemma_min_max_attained(d: Seq<DataPoint>)
    requires
        d.len() > 0,
    ensures
        contains_pos(d, min_pos(d)),
        contains_pos(d, max_pos(d)),
    decreases d.len(),
{
    if d.len() == 1 {
        assert(d[0].x == min_pos(d));
        assert(d[0].x == max_pos(d));
    } else {
        lemma_min_max_attained(d.drop_last());
        let dl = d.drop_last();
        let i = choose|i: int| 0 <= i < dl.len() && dl[i].x == min_pos(dl);
        let j = choose|j: int| 0 <= j < dl.len() && dl[j].x == max_pos(dl);
        assert(d[i].x == min_pos(dl));
        assert(d[j].x == max_pos(dl));
        assert(d[d.len() - 1] == d.last());
    }
}

/// A sequence with distinct positions covers exactly as many axis positions
/// as it has points.
pub proof fn lemma_position_set_len(d: Seq<DataPoint>)
    requires
        distinct_positions(d),
    ensures
        position_set(d).finite(),
        position_set(d).len() == d.len(),
    decreases d.len(),
{
    if d.len() == 0 {
        assert(position_set(d) =~= Set::empty());
    } else {
        let dl = d.drop_last();
        assert(distinct_positions(dl)) by {
            assert(forall|i: int, j: int|
                0 <= i < j < dl.len() ==> d[i] == dl[i] && d[j] == dl[j]);
        }
        lemma_position_set_len(dl);
        assert(position_set(d) =~= position_set(dl).insert(d.last().x as int)) by {
            assert forall|p: int| contains_pos(d, p) implies
                contains_pos(dl, p) || p == d.last().x by {
                let i = choose|i: int| 0 <= i < d.len() && d[i].x == p;
                if i < d.len() - 1 {
                    assert(dl[i] == d[i]);
                }
            }
            assert forall|p: int| contains_pos(dl, p) implies contains_pos(d, p) by {
                let i = choose|i: int| 0 <= i < dl.len() && dl[i].x == p;
                assert(d[i] == dl[i]);
            }
            assert(d[d.len() - 1] == d.last());
        }
        assert(!contains_pos(dl, d.last().x as int)) by {
            if contains_pos(dl, d.last().x as int) {
                let i = choose|i: int| 0 <= i < dl.len() && dl[i].x == d.last().x;
                assert(d[i] == dl[i]);
                assert(d[i].x == d[d.len() - 1].x);
            }
        }
    }
}

/// Pigeonhole: a dataset of pairwise distinct positions cannot hold more
/// points than its axis range has positions.
pub proof fn lemma_distinct_len_le_range(d: Seq<DataPoint>)
    requires
        d.len() > 0,
        distinct_positions(d),
    ensures
        d.len() <= max_pos(d) - min_pos(d) + 1,
{
    lemma_min_max_bound(d);
    lemma_position_set_len(d);
    let r = vstd::set_lib::set_int_range(min_pos(d), max_pos(d) + 1);
    vstd::set_lib::lemma_int_range(min_pos(d), max_pos(d) + 1);
    assert(position_set(d).subset_of(r)) by {
        assert forall|p: int| position_set(d).contains(p) implies r.contains(p) by {
            let i = choose|i: int| 0 <= i < d.len() && d[i].x == p;
            assert(min_pos(d) <= d[i].x <= max_pos(d));
        }
    }
    vstd::set_lib::lemma_len_subset(position_set(d), r);
}

} // verus!
