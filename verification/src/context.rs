use std::collections::HashSet;
use std::ops::RangeInclusive;
use vstd::prelude::*;

use crate::gaps::{lemma_missing_positions_len, missing_positions};
use crate::point::{
    contains_pos, distinct_positions, lemma_distinct_len_le_range, lemma_min_max_bound, max_pos,
    min_pos, DataPoint,
};

verus! {

/// Why a context could not be derived from a dataset.
#[derive(Clone, Copy, Debug, PartialEq, Eq, Structural)]
pub enum ImbueError {
    /// The dataset holds no points, so the axis range is undefined.
    EmptyDataset,
    /// Two points of the dataset sit at the same axis position.
    DuplicatePosition,
    /// The axis range spans more positions than this machine can address.
    RangeTooWide,
}

/// A read-only view over one dataset, derived once and consumed by a single
/// strategy invocation: the axis bounds spanned by the points, the size of
/// the full inclusive range, and how many positions of it are missing.
#[derive(Debug)]
pub struct ImbueContext {
    pub dataset: Vec<DataPoint>,
    pub total_count: usize,
    pub imbue_count: usize,
    pub axis_min: i64,
    pub axis_max: i64,
}

impl ImbueContext {
    /// The invariant every constructed context satisfies: the dataset is
    /// non-empty with pairwise distinct positions, the bounds are the least
    /// and greatest position, and the two counts are derived from them.
    pub open spec fn wf(&self) -> bool {
        &&& self.dataset@.len() > 0
        &&& distinct_positions(self.dataset@)
        &&& self.axis_min as int == min_pos(self.dataset@)
        &&& self.axis_max as int == max_pos(self.dataset@)
        &&& self.total_count as int == self.axis_max - self.axis_min + 1
        &&& self.imbue_count as int == self.total_count - self.dataset@.len()
    }

    /// The missing positions of this context's full axis range.
    pub open spec fn spec_missing(&self) -> Seq<int> {
        missing_positions(self.dataset@, self.axis_min as int, self.axis_max as int)
    }

    /// Derives a context from a dataset.  An empty dataset and a dataset in
    /// which two points share an axis position are rejected, as is a range
    /// too wide for the counts to be representable.
    pub fn new(dataset: Vec<DataPoint>) -> (r: Result<ImbueContext, ImbueError>)
        ensures
            match r {
                Ok(c) => {
                    &&& c.wf()
                    &&& c.dataset@ == dataset@
                    &&& dataset@.len() > 0
                    &&& distinct_positions(dataset@)
                    &&& max_pos(dataset@) - min_pos(dataset@) + 1 <= usize::MAX
                },
                Err(e) => match e {
                    ImbueError::EmptyDataset => dataset@.len() == 0,
                    ImbueError::DuplicatePosition => !distinct_positions(dataset@),
                    ImbueError::RangeTooWide => {
                        &&& dataset@.len() > 0
                        &&& distinct_positions(dataset@)
                        &&& max_pos(dataset@) - min_pos(dataset@) + 1 > usize::MAX
                    },
                },
            },
    {
        broadcast use vstd::std_specs::hash::group_hash_axioms;

        if dataset.len() == 0 {
            return Err(ImbueError::EmptyDataset);
        }
        let ghost d = dataset@;

        // Scan for the raw minimum and maximum position.
        let mut axis_min: i64 = dataset[0].x;
        let mut axis_max: i64 = dataset[0].x;
        let mut i: usize = 1;
        while i < dataset.len()
            invariant
                1 <= i <= d.len(),
                d == dataset@,
                d.len() > 0,
                axis_min as int == min_pos(d.take(i as int)),
                axis_max as int == max_pos(d.take(i as int)),
            decreases d.len() - i,
        {
            proof {
                assert(d.take(i + 1 as int).drop_last() =~= d.take(i as int));
                assert(d.take(i + 1 as int).last() == d[i as int]);
            }
            if dataset[i].x < axis_min {
                axis_min = dataset[i].x;
            }
            if dataset[i].x > axis_max {
                axis_max = dataset[i].x;
            }
            i = i + 1;
        }
        proof {
            assert(d.take(d.len() as int) =~= d);
        }

        // Reject datasets in which two points share an axis position.
        let mut seen: HashSet<i64> = HashSet::new();
        let mut j: usize = 0;
        while j < dataset.len()
            invariant
                j <= d.len(),
                d == dataset@,
                distinct_positions(d.take(j as int)),
                forall|p: i64| #[trigger] seen@.contains(p) <==> contains_pos(
                    d.take(j as int),
                    p as int,
                ),
            decreases d.len() - j,
        {
            let ghost prefix = d.take(j as int);
            if seen.contains(&dataset[j].x) {
                proof {
                    let k = choose|k: int| 0 <= k < prefix.len() && prefix[k].x == d[j as int].x;
                    assert(d[k].x == d[j as int].x);
                }
                return Err(ImbueError::DuplicatePosition);
            }
            seen.insert(dataset[j].x);
            let ghost next_prefix = d.take(j + 1 as int);
            proof {
                assert(next_prefix.drop_last() =~= prefix);
                assert(next_prefix.last() == d[j as int]);
                assert(distinct_positions(next_prefix)) by {
                    assert forall|a: int, b: int|
                        0 <= a < b < next_prefix.len() implies next_prefix[a].x
                        != next_prefix[b].x by {
                        if b < j as int {
                            assert(prefix[a].x != prefix[b].x);
                        } else {
                            assert(next_prefix[b] == d[j as int]);
                            if contains_pos(prefix, d[j as int].x as int) {
                                assert(false);
                            } else {
                                assert(prefix[a] == next_prefix[a]);
                            }
                        }
                    }
                }
                assert forall|p: i64| #[trigger] seen@.contains(p) implies contains_pos(
                    next_prefix,
                    p as int,
                ) by {
                    if p == d[j as int].x {
                        assert(next_prefix[j as int].x == p);
                    } else {
                        let k = choose|k: int| 0 <= k < prefix.len() && prefix[k].x == p;
                        assert(next_prefix[k].x == p);
                    }
                }
                assert forall|p: i64| contains_pos(next_prefix, p as int) implies seen@.contains(
                    p,
                ) by {
                    let k = choose|k: int| 0 <= k < next_prefix.len() && next_prefix[k].x == p;
                    if k < j as int {
                        assert(prefix[k].x == p);
                    }
                }
            }
            j = j + 1;
        }
        proof {
            assert(d.take(d.len() as int) =~= d);
        }

        // The counts, guarded against ranges wider than the machine can hold.
        proof {
            lemma_min_max_bound(d);
            assert(axis_min <= d[0].x <= axis_max);
        }
        let width_plus_one: i128 = (axis_max as i128) - (axis_min as i128) + 1;
        if width_plus_one > usize::MAX as i128 {
            return Err(ImbueError::RangeTooWide);
        }
        let total_count: usize = width_plus_one as usize;
        proof {
            lemma_distinct_len_le_range(d);
        }
        let imbue_count: usize = total_count - dataset.len();
        Ok(ImbueContext { dataset, total_count, imbue_count, axis_min, axis_max })
    }

    /// The full inclusive integer axis range spanned by the dataset.
    pub fn axis_range(&self) -> (r: RangeInclusive<i64>)
        ensures
            r@.start == self.axis_min,
            r@.end == self.axis_max,
    {
        RangeInclusive::new(self.axis_min, self.axis_max)
    }

    /// The set of axis positions already present in the dataset.
    pub fn known_x(&self) -> (s: HashSet<i64>)
        ensures
            forall|p: i64| #[trigger] s@.contains(p) <==> contains_pos(self.dataset@, p as int),
    {
        crate::gaps::known_position_set(&self.dataset)
    }
}

/// Law: over a well-formed context the number of missing axis positions is
/// exactly `imbue_count`, so each strategy synthesizes exactly that many
/// points; in particular a dataset already dense over its own range
/// (`imbue_count == 0`) leaves nothing to synthesize.
pub proof fn lemma_missing_count(c: &ImbueContext)
    requires
        c.wf(),
    ensures
        c.spec_missing().len() == c.imbue_count,
{
    lemma_min_max_bound(c.dataset@);
    lemma_missing_positions_len(c.dataset@, c.axis_min as int, c.axis_max as int);
}

/// Law: a dataset already dense over its own range leaves nothing to
/// synthesize; each strategy's contract pins its output length to
/// `imbue_count`, so all of them return an empty sequence there.
pub proof fn lemma_dense_context_fills_nothing(c: &ImbueContext)
    requires
        c.wf(),
        c.imbue_count == 0,
    ensures
        c.spec_missing().len() == 0,
{
    lemma_missing_count(c);
}

} // verus!
