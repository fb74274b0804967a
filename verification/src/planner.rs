//! The overwrite planner: given one scan range and a strategy, computes
//! the set of byte offsets inside that range that the corruption engine
//! will overwrite. Every planned offset lies strictly between the range's
//! bounds, and no offset is planned twice.

use vstd::prelude::*;
use vstd::arithmetic::div_mod::{lemma_fundamental_div_mod, lemma_mod_division_less_than_divisor};
use vstd::seq_lib::seq_to_set_is_finite;
use vstd::set_lib::{lemma_int_range, lemma_len_subset, set_int_range};
use crate::rng::SeededRng;
use crate::strategy::{PlacementKind, Strategy};

verus! {

/// The spacing of the Constant placement: the range's width divided by
/// the requested overwrite count.
pub open spec fn const_interval(start: int, end: int, count: int) -> int {
    (end - start) / count
}

/// How many offsets the Constant placement yields: none when the count is
/// zero or the range is narrower than one interval per offset; otherwise
/// `count`, less one when the final offset would fall on `end` itself.
pub open spec fn const_offset_count(start: int, end: int, count: int) -> int {
    if count <= 0 {
        0
    } else if const_interval(start, end, count) <= 0 {
        0
    } else if count * const_interval(start, end, count) < end - start {
        count
    } else {
        count - 1
    }
}

/// The offsets of the Constant placement: `start + interval`,
/// `start + 2 * interval`, and so on, strictly below `end`.
pub open spec fn spec_constant_offsets(start: int, end: int, count: int) -> Seq<u64> {
    Seq::new(
        const_offset_count(start, end, count) as nat,
        |k: int| (start + (k + 1) * const_interval(start, end, count)) as u64,
    )
}

/// The Constant placement yields at most `count` offsets, all strictly
/// inside `(start, end)`, consecutive offsets exactly one interval apart,
/// and strictly increasing.
pub proof fn lemma_constant_offsets_properties(start: int, end: int, count: int)
    requires
        0 <= start <= end <= u64::MAX,
    ensures
        count >= 0 ==> spec_constant_offsets(start, end, count).len() <= count,
        forall|k: int|
            0 <= k < spec_constant_offsets(start, end, count).len() ==> start < (
            #[trigger] spec_constant_offsets(start, end, count)[k]) < end,
        forall|k: int|
            0 <= k && k + 1 < spec_constant_offsets(start, end, count).len() ==> (#[trigger] spec_constant_offsets(
                start,
                end,
                count,
            )[k + 1]) - spec_constant_offsets(start, end, count)[k] == const_interval(
                start,
                end,
                count,
            ),
        forall|k1: int, k2: int|
            0 <= k1 < k2 < spec_constant_offsets(start, end, count).len() ==> (
            #[trigger] spec_constant_offsets(start, end, count)[k1]) < (
            #[trigger] spec_constant_offsets(start, end, count)[k2]),
{
    if count > 0 {
        let iv = const_interval(start, end, count);
        lemma_fundamental_div_mod(end - start, count);
        lemma_mod_division_less_than_divisor(end - start, count);
        assert(count * iv <= end - start);
        if iv > 0 {
            let m = const_offset_count(start, end, count);
            assert forall|k: int| 0 <= k < m implies start < (
            #[trigger] spec_constant_offsets(start, end, count)[k]) < end by {
                assert(1 * iv <= (k + 1) * iv && (k + 1) * iv <= m * iv) by (nonlinear_arith)
                    requires
                        0 <= k < m,
                        iv > 0,
                ;
                if m == count {
                } else {
                    assert(m * iv == count * iv - iv) by (nonlinear_arith)
                        requires
                            m == count - 1,
                    ;
                }
                assert(0 <= start + (k + 1) * iv <= u64::MAX);
            }
            assert forall|k1: int, k2: int| 0 <= k1 < k2 < m implies (
            #[trigger] spec_constant_offsets(start, end, count)[k1]) < (
            #[trigger] spec_constant_offsets(start, end, count)[k2]) by {
                assert(0 <= (k1 + 1) * iv && (k1 + 1) * iv < (k2 + 1) * iv && (k2 + 1) * iv <= m
                    * iv) by (nonlinear_arith)
                    requires
                        0 <= k1 < k2 < m,
                        iv > 0,
                ;
                if m != count {
                    assert(m * iv == count * iv - iv) by (nonlinear_arith)
                        requires
                            m == count - 1,
                    ;
                }
                assert(0 <= start + (k1 + 1) * iv <= u64::MAX);
                assert(0 <= start + (k2 + 1) * iv <= u64::MAX);
            }
            assert forall|k: int| 0 <= k && k + 1 < m implies (#[trigger] spec_constant_offsets(
                start,
                end,
                count,
            )[k + 1]) - spec_constant_offsets(start, end, count)[k] == iv by {
                assert(0 <= (k + 1) * iv && (k + 2) * iv - (k + 1) * iv == iv && (k + 2) * iv <= m
                    * iv) by (nonlinear_arith)
                    requires
                        0 <= k,
                        k + 1 < m,
                        iv > 0,
                ;
                if m != count {
                    assert(m * iv == count * iv - iv) by (nonlinear_arith)
                        requires
                            m == count - 1,
                    ;
                }
                assert(0 <= start + (k + 1) * iv <= u64::MAX);
                assert(0 <= start + (k + 2) * iv <= u64::MAX);
            }
        }
    }
}

/// Whether `x` occurs in `v`.
pub(crate) fn contains_u64(v: &Vec<u64>, x: u64) -> (r: bool)
    ensures
        r == v@.contains(x),
{
    let mut j: usize = 0;
    while j < v.len()
        invariant
            j <= v@.len(),
            forall|k: int| 0 <= k < j ==> v@[k] != x,
        decreases v@.len() - j,
    {
        if v[j] == x {
            proof {
                assert(v@.contains(x)) by { assert(v@[j as int] == x); }
            }
            return true;
        }
        j = j + 1;
    }
    false
}

/// How often a duplicate random draw is retried before the planner falls
/// back to the smallest free interior offset, so that planning always
/// terminates even when the caller requests nearly as many distinct
/// offsets as the range has interior bytes.
pub const RETRY_CAP: u32 = 64;

/// How many offsets the Random placement yields: the requested count,
/// capped by the number of byte offsets strictly inside the range.
pub open spec fn random_offset_count(start: int, end: int, count: int) -> int {
    let slots = if end - start >= 1 {
        end - start - 1
    } else {
        0
    };
    if count <= slots {
        count
    } else {
        slots
    }
}

/// Pigeonhole: a sequence of pairwise distinct values that is shorter
/// than the block `[lo, hi]` cannot cover it, so some value of the block
/// is missing from the sequence.
proof fn lemma_some_value_free(offsets: Seq<u64>, lo: u64, hi: u64)
    requires
        lo <= hi,
        offsets.len() < hi - lo + 1,
    ensures
        exists|x: u64| lo <= x <= hi && !offsets.contains(x),
{
    if forall|x: u64| lo <= x <= hi ==> #[trigger] offsets.contains(x) {
        let ints = offsets.map_values(|v: u64| v as int);
        ints.lemma_cardinality_of_set();
        broadcast use seq_to_set_is_finite;

        let range = set_int_range(lo as int, hi as int + 1);
        lemma_int_range(lo as int, hi as int + 1);
        assert(range.subset_of(ints.to_set())) by {
            assert forall|i: int| range.contains(i) implies ints.to_set().contains(i) by {
                let v = i as u64;
                assert(lo <= v <= hi);
                assert(offsets.contains(v));
                let w = choose|w: int| 0 <= w < offsets.len() && offsets[w] == v;
                assert(ints[w] == i);
                assert(ints.contains(i));
            }
        }
        lemma_len_subset(range, ints.to_set());
        assert(false);
    }
}

/// The smallest value of `[lo, hi]` that does not occur in `v`; the
/// precondition promises there is one.
fn first_free(v: &Vec<u64>, lo: u64, hi: u64) -> (r: u64)
    requires
        lo <= hi,
        exists|x: u64| lo <= x <= hi && !v@.contains(x),
    ensures
        lo <= r <= hi,
        !v@.contains(r),
{
    let mut x = lo;
    while x < hi
        invariant
            lo <= x <= hi,
            exists|y: u64| x <= y <= hi && !v@.contains(y),
        decreases hi - x,
    {
        if !contains_u64(v, x) {
            return x;
        }
        proof {
            let y = choose|y: u64| x <= y <= hi && !v@.contains(y);
            assert(y != x);
            assert(x + 1 <= y <= hi && !v@.contains(y));
        }
        x = x + 1;
    }
    proof {
        let y = choose|y: u64| x <= y <= hi && !v@.contains(y);
        assert(y == hi);
    }
    x
}

/// Plans the overwrite offsets for the range `(scan_start, scan_end)`.
/// Every planned offset lies strictly inside the range, offsets are
/// pairwise distinct, and at most `overwrite_count` of them are planned.
/// Under the Constant placement the result is exactly the evenly spaced
/// sequence `spec_constant_offsets`. Under the Random placement the
/// planner draws uniformly, retries a duplicate draw up to `RETRY_CAP`
/// times and then takes the smallest free interior offset instead, so it
/// returns exactly `overwrite_count` distinct offsets, capped by how many
/// offsets the range's interior holds. A range with an empty interior —
/// including `scan_start == scan_end` — yields the empty plan rather
/// than being rejected.
pub fn get_overwrites(
    scan_start: u64,
    scan_end: u64,
    strategy: &Strategy,
    rng: &mut SeededRng,
) -> (offsets: Vec<u64>)
    requires
        scan_start <= scan_end,
    ensures
        forall|k: int|
            0 <= k < offsets@.len() ==> scan_start < (#[trigger] offsets@[k]) < scan_end,
        forall|k1: int, k2: int|
            0 <= k1 < k2 < offsets@.len() ==> offsets@[k1] != offsets@[k2],
        offsets@.len() <= strategy.overwrite_count,
        strategy.placement == PlacementKind::Constant ==> offsets@ == spec_constant_offsets(
            scan_start as int,
            scan_end as int,
            strategy.overwrite_count as int,
        ),
        strategy.placement == PlacementKind::Random ==> offsets@.len() == random_offset_count(
            scan_start as int,
            scan_end as int,
            strategy.overwrite_count as int,
        ),
{
    let mut offsets: Vec<u64> = Vec::new();
    let count = strategy.overwrite_count;
    let ghost s = scan_start as int;
    let ghost e = scan_end as int;
    let ghost c = count as int;
    match strategy.placement {
        PlacementKind::Constant => {
            proof {
                lemma_constant_offsets_properties(s, e, c);
            }
            if count == 0 {
                proof {
                    assert(offsets@ =~= spec_constant_offsets(s, e, c));
                }
                return offsets;
            }
            let interval = (scan_end - scan_start) / (count as u64);
            proof {
                lemma_fundamental_div_mod(e - s, c);
                lemma_mod_division_less_than_divisor(e - s, c);
            }
            if interval == 0 {
                proof {
                    assert(offsets@ =~= spec_constant_offsets(s, e, c));
                }
                return offsets;
            }
            let ghost iv = interval as int;
            let ghost m = const_offset_count(s, e, c);
            let mut j: u64 = 1;
            while j <= count as u64
                invariant
                    1 <= j <= c + 1,
                    iv == interval as int,
                    iv == const_interval(s, e, c),
                    1 <= iv,
                    m == const_offset_count(s, e, c),
                    0 <= s <= e <= u64::MAX,
                    s == scan_start as int,
                    e == scan_end as int,
                    1 <= c == count as int,
                    c * iv <= e - s,
                    m == c || m == c - 1,
                    offsets@ =~= spec_constant_offsets(s, e, c).take(
                        if j - 1 <= m {
                            j - 1
                        } else {
                            m
                        },
                    ),
                decreases c + 1 - j,
            {
                proof {
                    assert((j as int) * iv <= c * iv) by (nonlinear_arith)
                        requires
                            j as int <= c,
                            iv >= 0,
                    ;
                }
                let off = scan_start + j * interval;
                proof {
                    lemma_constant_offsets_properties(s, e, c);
                    if j as int <= m {
                        assert(spec_constant_offsets(s, e, c)[j - 1] == off);
                        assert(off < scan_end);
                    } else {
                        assert(m == c - 1 && j as int == c);
                        assert(c * iv >= e - s);
                        assert(off as int == s + c * iv);
                        assert(off >= scan_end);
                    }
                }
                if off < scan_end {
                    offsets.push(off);
                }
                proof {
                    assert(offsets@ =~= spec_constant_offsets(s, e, c).take(
                        if j as int <= m {
                            j as int
                        } else {
                            m
                        },
                    ));
                }
                j = j + 1;
            }
            proof {
                assert(offsets@ =~= spec_constant_offsets(s, e, c));
            }
            offsets
        },
        PlacementKind::Random => {
            if scan_end - scan_start < 2 {
                return offsets;
            }
            let lo = scan_start + 1;
            let hi = scan_end - 1;
            let slots = scan_end - scan_start - 1;
            let mut n: u32 = 0;
            while n < count && (offsets.len() as u64) < slots
                invariant
                    n <= count,
                    lo == scan_start + 1,
                    hi == scan_end - 1,
                    slots == scan_end - scan_start - 1,
                    scan_end - scan_start >= 2,
                    offsets@.len() == n,
                    offsets@.len() <= slots,
                    forall|k: int|
                        0 <= k < offsets@.len() ==> scan_start < (#[trigger] offsets@[k])
                            < scan_end,
                    forall|k1: int, k2: int|
                        0 <= k1 < k2 < offsets@.len() ==> offsets@[k1] != offsets@[k2],
                decreases count - n,
            {
                let mut idx = rng.next_u64(lo, hi);
                let mut attempts: u32 = 0;
                while attempts < RETRY_CAP && contains_u64(&offsets, idx)
                    invariant
                        attempts <= RETRY_CAP,
                        lo <= idx <= hi,
                        lo == scan_start + 1,
                        hi == scan_end - 1,
                        scan_start < scan_end,
                    decreases RETRY_CAP - attempts,
                {
                    idx = rng.next_u64(lo, hi);
                    attempts = attempts + 1;
                }
                if contains_u64(&offsets, idx) {
                    // every retry collided: fall back to the smallest
                    // interior offset not planned yet, which the count of
                    // planned offsets being below the slot count promises
                    proof {
                        lemma_some_value_free(offsets@, lo, hi);
                    }
                    idx = first_free(&offsets, lo, hi);
                }
                offsets.push(idx);
                n = n + 1;
            }
            proof {
                assert(offsets@.len() == random_offset_count(
                    scan_start as int,
                    scan_end as int,
                    count as int,
                ));
            }
            offsets
        },
    }
}

} // verus!
