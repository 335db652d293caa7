use vstd::prelude::*;

use crate::context::{lemma_missing_count, ImbueContext, ImbueError};
use crate::float_bits::{
    abs_bits, add_bits, div_bits, f64_abs, f64_add, f64_div, f64_gt, f64_neg, f64_of_uint,
    f64_sub, gt_bits, neg_bits, of_uint_bits, sub_bits,
};
use crate::gaps::{
    lemma_next_known_exact, lemma_prev_known_exact, missing_positions, missing_vec, next_known,
    position_map, prev_known,
};
use crate::point::{contains_pos, distinct_positions, max_pos, min_pos, value_at, DataPoint};

verus! {

/// The closed set of gap-filling strategies a caller can select.
#[derive(Clone, Copy, Debug, PartialEq, Eq, Structural)]
pub enum ImbueStrategy {
    Average,
    Zeroed,
    LastKnown,
}

/// The bit pattern of positive zero, the value given to every position a
/// strategy has no information for.
pub const ZERO_BITS: u64 = 0;

/// The value carried to position `p` when walking up from `lo`: the value of
/// the nearest covered position at or before `p`, or the zero pattern when
/// no covered position lies at or before `p`.
pub open spec fn carry_value(d: Seq<DataPoint>, lo: int, p: int) -> u64
    decreases p + 1 - lo,
{
    if p < lo {
        ZERO_BITS
    } else if contains_pos(d, p) {
        value_at(d, p)
    } else {
        carry_value(d, lo, p - 1)
    }
}

/// Law: when a covered position `q` lies at or before `p` with nothing
/// covered between them, the carried value at `p` is the value at `q`.
pub proof fn lemma_carry_value_nearest(d: Seq<DataPoint>, lo: int, p: int, q: int)
    requires
        lo <= q <= p,
        contains_pos(d, q),
        forall|r: int| q < r <= p ==> !contains_pos(d, r),
    ensures
        carry_value(d, lo, p) == value_at(d, q),
    decreases p - q,
{
    if p > q {
        lemma_carry_value_nearest(d, lo, p - 1, q);
    }
}

/// Law: when no covered position lies at or before `p`, the carried value at
/// `p` is the zero pattern.
pub proof fn lemma_carry_value_default(d: Seq<DataPoint>, lo: int, p: int)
    requires
        forall|r: int| lo <= r <= p ==> !contains_pos(d, r),
    ensures
        carry_value(d, lo, p) == ZERO_BITS,
    decreases p + 1 - lo,
{
    if p >= lo {
        lemma_carry_value_default(d, lo, p - 1);
    }
}

/// Fills every missing position of the context's axis range with the zero
/// pattern, in ascending position order.
pub fn zeroed(context: &ImbueContext) -> (r: Vec<DataPoint>)
    requires
        context.wf(),
    ensures
        r@.len() == context.imbue_count,
        r@.len() == context.spec_missing().len(),
        forall|k: int| 0 <= k < r@.len() ==> (#[trigger] r@[k]).x as int == context.spec_missing()[k]
            && r@[k].y == ZERO_BITS,
{
    proof {
        lemma_missing_count(context);
    }
    if context.imbue_count == 0 {
        return Vec::new();
    }
    let ghost d = context.dataset@;
    let ghost lo = context.axis_min as int;
    let ghost hi = context.axis_max as int;
    proof {
        crate::point::lemma_min_max_bound(d);
        assert(lo <= d[0].x <= hi);
    }
    let missing = missing_vec(
        &context.dataset,
        context.axis_min,
        context.axis_max,
        context.total_count,
    );
    let mut r: Vec<DataPoint> = Vec::new();
    let mut k: usize = 0;
    while k < missing.len()
        invariant
            k <= missing@.len(),
            missing@.len() == missing_positions(d, lo, hi).len(),
            forall|j: int| 0 <= j < missing@.len() ==> missing@[j] as int == missing_positions(
                d,
                lo,
                hi,
            )[j],
            r@.len() == k,
            forall|j: int| 0 <= j < k ==> (#[trigger] r@[j]).x as int == missing_positions(
                d,
                lo,
                hi,
            )[j] && r@[j].y == ZERO_BITS,
        decreases missing@.len() - k,
    {
        r.push(DataPoint::new(missing[k], ZERO_BITS));
        k = k + 1;
    }
    r
}

/// Fills every missing position of the context's axis range with the value
/// of the nearest covered position before it, in ascending position order;
/// positions before the first covered one receive the zero pattern.
pub fn last_known(context: &ImbueContext) -> (r: Vec<DataPoint>)
    requires
        context.wf(),
    ensures
        r@.len() == context.imbue_count,
        r@.len() == context.spec_missing().len(),
        forall|k: int| 0 <= k < r@.len() ==> (#[trigger] r@[k]).x as int == context.spec_missing()[k]
            && r@[k].y == carry_value(
            context.dataset@,
            context.axis_min as int,
            context.spec_missing()[k],
        ),
{
    broadcast use vstd::std_specs::hash::group_hash_axioms;

    proof {
        lemma_missing_count(context);
    }
    if context.imbue_count == 0 {
        return Vec::new();
    }
    let ghost d = context.dataset@;
    let ghost lo = context.axis_min as int;
    let ghost hi = context.axis_max as int;
    let map = position_map(&context.dataset);
    let mut r: Vec<DataPoint> = Vec::new();
    let mut last: u64 = ZERO_BITS;
    let mut k: usize = 0;
    let count = context.total_count;
    let axis_min = context.axis_min;
    while k < count
        invariant
            k <= count,
            d == context.dataset@,
            lo == axis_min as int,
            hi == context.axis_max as int,
            count == hi - lo + 1,
            lo <= hi,
            forall|p: i64| #[trigger] map@.contains_key(p) <==> contains_pos(d, p as int),
            forall|p: i64| #[trigger] map@.contains_key(p) ==> map@[p] == value_at(d, p as int),
            last == carry_value(d, lo, lo + k - 1),
            r@.len() == missing_positions(d, lo, lo + k - 1).len(),
            forall|j: int| 0 <= j < r@.len() ==> (#[trigger] r@[j]).x as int == missing_positions(
                d,
                lo,
                lo + k - 1,
            )[j] && r@[j].y == carry_value(d, lo, missing_positions(d, lo, lo + k - 1)[j]),
        decreases count - k,
    {
        let p: i64 = ((axis_min as i128) + (k as i128)) as i64;
        assert(p as int == lo + k);
        let ghost prev = missing_positions(d, lo, lo + k - 1);
        let ghost cur = missing_positions(d, lo, lo + k);
        if map.contains_key(&p) {
            last = *map.get(&p).unwrap();
            proof {
                assert(cur == prev);
                assert(last == carry_value(d, lo, lo + k));
            }
        } else {
            r.push(DataPoint::new(p, last));
            proof {
                assert(cur == prev.push(p as int));
                assert(carry_value(d, lo, p as int) == last);
            }
        }
        k = k + 1;
    }
    proof {
        assert(lo + count - 1 == hi);
    }
    r
}

/// The signed per-step increment filling a gap whose boundary values are
/// `ya` and `yb`: the magnitude is |ya - yb| divided by `span`, the number
/// of steps from one boundary to the other (one more than the number of
/// missing positions, so the walk reaches but never lands on `yb`); the
/// increment is negative exactly when `ya > yb`.
pub open spec fn gap_step(ya: u64, yb: u64, span: u64) -> u64 {
    let mag = f64_div(f64_abs(f64_sub(ya, yb)), f64_of_uint(span));
    if f64_gt(ya, yb) {
        f64_neg(mag)
    } else {
        mag
    }
}

/// The value reached after `k` accumulated additions of `step` to `seed`.
pub open spec fn accum(seed: u64, step: u64, k: nat) -> u64
    decreases k,
{
    if k == 0 {
        seed
    } else {
        f64_add(accum(seed, step, (k - 1) as nat), step)
    }
}

/// The value synthesized at a missing position `p` of `[lo, hi]`: with `a`
/// the nearest covered position before `p` and `b` the nearest covered
/// position after it, the value of `a` moved `p - a` accumulated steps
/// toward the value of `b`.
pub open spec fn interpolated_value(d: Seq<DataPoint>, lo: int, hi: int, p: int) -> u64 {
    let a = prev_known(d, lo, p);
    let b = next_known(d, p, hi);
    accum(
        value_at(d, a),
        gap_step(value_at(d, a), value_at(d, b), (b - a) as u64),
        (p - a) as nat,
    )
}

/// Fills every missing position of the context's axis range with a linearly
/// interpolated value between the nearest covered neighbours, in ascending
/// position order.
#[verifier::rlimit(60)]
pub fn average(context: &ImbueContext) -> (r: Vec<DataPoint>)
    requires
        context.wf(),
    ensures
        r@.len() == context.imbue_count,
        r@.len() == context.spec_missing().len(),
        forall|k: int| 0 <= k < r@.len() ==> (#[trigger] r@[k]).x as int == context.spec_missing()[k]
            && r@[k].y == interpolated_value(
            context.dataset@,
            context.axis_min as int,
            context.axis_max as int,
            context.spec_missing()[k],
        ),
{
    broadcast use vstd::std_specs::hash::group_hash_axioms;

    proof {
        lemma_missing_count(context);
    }
    if context.imbue_count == 0 {
        return Vec::new();
    }
    let ghost d = context.dataset@;
    let ghost lo = context.axis_min as int;
    let ghost hi = context.axis_max as int;
    proof {
        crate::point::lemma_min_max_bound(d);
        crate::point::lemma_min_max_attained(d);
        assert(lo <= d[0].x <= hi);
        crate::gaps::lemma_missing_positions_characterization(d, lo, hi);
    }
    let map = position_map(&context.dataset);
    let missing = missing_vec(
        &context.dataset,
        context.axis_min,
        context.axis_max,
        context.total_count,
    );
    let ghost m = missing_positions(d, lo, hi);
    let mut r: Vec<DataPoint> = Vec::new();
    let mut i: usize = 0;
    while i < missing.len()
        invariant
            d == context.dataset@,
            lo == context.axis_min as int,
            hi == context.axis_max as int,
            lo <= hi,
            hi - lo + 1 <= usize::MAX,
            contains_pos(d, lo),
            contains_pos(d, hi),
            forall|p: i64| #[trigger] map@.contains_key(p) <==> contains_pos(d, p as int),
            forall|p: i64| #[trigger] map@.contains_key(p) ==> map@[p] == value_at(d, p as int),
            m == missing_positions(d, lo, hi),
            missing@.len() == m.len(),
            forall|j: int| 0 <= j < m.len() ==> missing@[j] as int == m[j],
            forall|k: int| 0 <= k < m.len() ==> lo <= #[trigger] m[k] <= hi && !contains_pos(
                d,
                m[k],
            ),
            forall|k1: int, k2: int| 0 <= k1 < k2 < m.len() ==> m[k1] < m[k2],
            forall|p: int| lo <= p <= hi && !contains_pos(d, p) ==> m.contains(p),
            i <= m.len(),
            r@.len() == i,
            forall|j: int| 0 <= j < i ==> (#[trigger] r@[j]).x as int == m[j] && r@[j].y
                == interpolated_value(d, lo, hi, m[j]),
            i == 0 || i == m.len() || m[i as int] != m[i - 1] + 1,
        decreases m.len() - i,
    {
        let p0: i64 = missing[i];
        proof {
            assert(m[i as int] != lo);
        }
        let a: i64 = p0 - 1;
        proof {
            assert(contains_pos(d, a as int)) by {
                if !contains_pos(d, a as int) {
                    assert(m.contains(a as int));
                    let t = choose|t: int| 0 <= t < m.len() && m[t] == a as int;
                    assert(m[t] < m[i as int]);
                    assert(t < i as int);
                    assert(i != 0);
                    assert(m[i - 1] < m[i as int]);
                    assert(m[i - 1] != m[i as int] - 1);
                    assert(m[t] > m[i - 1]);
                    assert(false);
                }
            }
        }
        // Find the end of the maximal run of consecutive missing positions.
        proof {
            assert forall|k: int| 0 <= k < m.len() implies #[trigger] m[k] < hi by {
                assert(!contains_pos(d, m[k]));
            }
            assert(missing@.len() <= usize::MAX);
        }
        let mut j: usize = i;
        while j + 1 < missing.len() && (missing[j + 1] as i128) == (missing[j] as i128) + 1
            invariant
                m == missing_positions(d, lo, hi),
                missing@.len() == m.len(),
                missing@.len() <= usize::MAX,
                hi == context.axis_max as int,
                forall|t: int| 0 <= t < m.len() ==> missing@[t] as int == m[t],
                forall|k: int| 0 <= k < m.len() ==> lo <= #[trigger] m[k] <= hi && !contains_pos(
                    d,
                    m[k],
                ),
                forall|k: int| 0 <= k < m.len() ==> #[trigger] m[k] < hi,
                forall|k1: int, k2: int| 0 <= k1 < k2 < m.len() ==> m[k1] < m[k2],
                contains_pos(d, hi),
                i <= j < m.len(),
                forall|t: int| i <= t <= j ==> #[trigger] m[t] == m[i as int] + (t - i),
            decreases m.len() - j,
        {
            proof {
                assert(missing@[j + 1] as int == m[j + 1]);
                assert(missing@[j as int] as int == m[j as int]);
                assert(m[j + 1] == m[i as int] + (j + 1 - i));
            }
            j = j + 1;
        }
        proof {
            assert(m[j as int] < hi);
        }
        let b: i64 = missing[j] + 1;
        proof {
            assert(contains_pos(d, b as int)) by {
                if !contains_pos(d, b as int) {
                    assert(m.contains(b as int));
                    let t = choose|t: int| 0 <= t < m.len() && m[t] == b as int;
                    assert(m[t] > m[j as int]);
                    assert(t > j as int);
                    assert(j + 1 < m.len());
                    assert(m[j + 1] != m[j as int] + 1);
                    assert(m[j + 1] > m[j as int]);
                    assert(m[t] >= m[j + 1]);
                    assert(false);
                }
            }
        }
        let ya: u64 = *map.get(&a).unwrap();
        let yb: u64 = *map.get(&b).unwrap();
        let span: u64 = ((b as i128) - (a as i128)) as u64;
        proof {
            assert(span as int == b - a);
            assert(ya == value_at(d, a as int));
            assert(yb == value_at(d, b as int));
        }
        let diff = sub_bits(ya, yb);
        let mag = abs_bits(diff);
        let quot = div_bits(mag, of_uint_bits(span));
        let step: u64 = if gt_bits(ya, yb) {
            neg_bits(quot)
        } else {
            quot
        };
        proof {
            assert(step == gap_step(ya, yb, span));
            assert forall|s: int| i <= s <= j implies prev_known(d, lo, #[trigger] m[s]) == a as int
                && next_known(d, m[s], hi) == b as int by {
                assert(m[s] == m[i as int] + (s - i));
                assert forall|q: int| (a as int) < q && q < m[s] implies !contains_pos(d, q) by {
                    assert(m[i + (q - m[i as int])] == q);
                }
                lemma_prev_known_exact(d, lo, a as int, m[s]);
                assert forall|q: int| m[s] < q && q < (b as int) implies !contains_pos(d, q) by {
                    assert(m[i + (q - m[i as int])] == q);
                }
                lemma_next_known_exact(d, m[s], b as int, hi);
            }
        }
        let mut v: u64 = ya;
        let mut t: usize = i;
        while t <= j
            invariant
                i <= t <= j + 1,
                j < m.len(),
                missing@.len() == m.len(),
                missing@.len() <= usize::MAX,
                forall|s: int| 0 <= s < m.len() ==> missing@[s] as int == m[s],
                r@.len() == t,
                v == accum(ya, step, (t - i) as nat),
                forall|s: int| 0 <= s < i ==> (#[trigger] r@[s]).x as int == m[s] && r@[s].y
                    == interpolated_value(d, lo, hi, m[s]),
                forall|s: int| i <= s < t ==> (#[trigger] r@[s]).x as int == m[s] && r@[s].y
                    == accum(ya, step, (s - i + 1) as nat),
            decreases j + 1 - t,
        {
            v = add_bits(v, step);
            r.push(DataPoint::new(missing[t], v));
            t = t + 1;
        }
        proof {
            assert forall|s: int| i <= s <= j implies (#[trigger] r@[s]).y == interpolated_value(
                d,
                lo,
                hi,
                m[s],
            ) by {
                assert(r@[s].y == accum(ya, step, (s - i + 1) as nat));
                assert(prev_known(d, lo, m[s]) == a as int);
                assert(next_known(d, m[s], hi) == b as int);
                assert(m[s] - a as int == s - i + 1);
                assert((b as int - a as int) as u64 == span);
            }
        }
        i = j + 1;
    }
    r
}

/// The whole operation the surrounding HTTP boundary mounts at `/imbue`,
/// named after the launcher it backs: derive a context from the dataset and
/// fill its gaps with the selected strategy, in one tagged dispatch.
pub fn rocket(dataset: Vec<DataPoint>, strategy: ImbueStrategy) -> (r: Result<
    Vec<DataPoint>,
    ImbueError,
>)
    ensures
        match r {
            Ok(points) => {
                let d = dataset@;
                let lo = min_pos(d);
                let hi = max_pos(d);
                let m = missing_positions(d, lo, hi);
                &&& d.len() > 0
                &&& distinct_positions(d)
                &&& hi - lo + 1 <= usize::MAX
                &&& points@.len() == m.len()
                &&& points@.len() == (hi - lo + 1) - d.len()
                &&& forall|k: int|
                    0 <= k < m.len() ==> (#[trigger] points@[k]).x as int == m[k]
                        && points@[k].y == (match strategy {
                        ImbueStrategy::Average => interpolated_value(d, lo, hi, m[k]),
                        ImbueStrategy::Zeroed => ZERO_BITS,
                        ImbueStrategy::LastKnown => carry_value(d, lo, m[k]),
                    })
            },
            Err(e) => match e {
                ImbueError::EmptyDataset => dataset@.len() == 0,
                ImbueError::DuplicatePosition => !distinct_positions(dataset@),
                ImbueError::RangeTooWide => {
                    &&& dataset@.len() > 0
                    &&& distinct_positions(dataset@)
                    &&& max_pos(dataset@) - min_pos(dataset@) + 1 > usize::MAX
                },
            },
        },
{
    let context = match ImbueContext::new(dataset) {
        Ok(c) => c,
        Err(e) => {
            return Err(e);
        },
    };
    let points = match strategy {
        ImbueStrategy::Average => average(&context),
        ImbueStrategy::Zeroed => zeroed(&context),
        ImbueStrategy::LastKnown => last_known(&context),
    };
    Ok(points)
}

} // verus!
