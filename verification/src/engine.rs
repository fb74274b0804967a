//! The corruption engine: applies a planned set of overwrite offsets to a
//! byte stream, mutating exactly the selected bytes inside one scan range
//! and leaving every other byte untouched.

use vstd::prelude::*;
use crate::detector::ScanRange;
use crate::planner::contains_u64;
use crate::planner::get_overwrites;
use crate::planner::lemma_constant_offsets_properties;
use crate::planner::spec_constant_offsets;
use crate::rng::SeededRng;
use crate::strategy::{OverwriteKind, PlacementKind, Strategy};

verus! {

/// Subtraction of `m` from `v` that saturates at the original value: a
/// magnitude larger than the byte leaves the byte unchanged.
pub open spec fn spec_sat_sub(v: u8, m: u8) -> u8 {
    if m > v {
        v
    } else {
        (v - m) as u8
    }
}

/// The RelativeOffset mutation rule. A magnitude greater than the
/// original value leaves the byte unchanged: the subtraction never wraps
/// below zero.
pub fn mutate_relative(v: u8, m: u8) -> (r: u8)
    ensures
        r == spec_sat_sub(v, m),
        m > v ==> r == v,
        r <= v,
{
    if m > v {
        v
    } else {
        v - m
    }
}

/// Saturation law of the RelativeOffset rule: for every original byte
/// value and every magnitude greater than it, the mutated byte equals the
/// original, unchanged — the subtraction never wraps below zero.
pub proof fn lemma_relative_offset_saturates(v: u8, m: u8)
    ensures
        m > v ==> spec_sat_sub(v, m) == v,
        spec_sat_sub(v, m) <= v,
{
}

/// What the engine may have written over an original byte, by overwrite
/// kind: a Random overwrite is any value in `[1, 255]`; a RelativeOffset
/// overwrite is the original less some magnitude from the configured
/// interval, saturating at the original.
pub open spec fn mutated_ok(s: Strategy, orig: u8, new: u8) -> bool {
    match s.overwrite {
        OverwriteKind::Random => 1 <= new,
        OverwriteKind::RelativeOffset => exists|m: u8|
            s.min_offset_magnitude <= m <= s.max_offset_magnitude && new == spec_sat_sub(orig, m),
    }
}

/// Applies the planned offsets to a copy of `content`. The result has the
/// input's length; every byte whose offset is not both planned and
/// strictly inside the range is unchanged; every byte that is overwritten
/// satisfies the strategy's mutation rule; and an empty plan returns the
/// input byte for byte.
pub fn apply_offsets(
    content: &Vec<u8>,
    range: ScanRange,
    offsets: &Vec<u64>,
    strategy: &Strategy,
    rng: &mut SeededRng,
) -> (r: Vec<u8>)
    requires
        strategy.wf(),
    ensures
        r@.len() == content@.len(),
        forall|i: int| #![trigger content@[i]]
            0 <= i < content@.len() && !(offsets@.contains(i as u64) && range.interior_contains(i))
                ==> r@[i] == content@[i],
        forall|i: int| #![trigger content@[i]]
            0 <= i < content@.len() && offsets@.contains(i as u64) && range.interior_contains(i)
                ==> mutated_ok(*strategy, content@[i], r@[i]),
        offsets@.len() == 0 ==> r@ == content@,
{
    let mut r: Vec<u8> = Vec::new();
    let n = content.len();
    let mut i: usize = 0;
    while i < n
        invariant
            n == content@.len(),
            0 <= i <= n,
            r@.len() == i,
            strategy.wf(),
            forall|j: int| #![trigger content@[j]]
                0 <= j < i && !(offsets@.contains(j as u64) && range.interior_contains(j))
                    ==> r@[j] == content@[j],
            forall|j: int| #![trigger content@[j]]
                0 <= j < i && offsets@.contains(j as u64) && range.interior_contains(j)
                    ==> mutated_ok(*strategy, content@[j], r@[j]),
        decreases n - i,
    {
        let b = content[i];
        let off = i as u64;
        let mut nb = b;
        let hit = range.start < off && off < range.end && contains_u64(offsets, off);
        proof {
            assert(hit == (offsets@.contains(i as u64) && range.interior_contains(i as int)));
        }
        if hit {
            match strategy.overwrite {
                OverwriteKind::Random => {
                    nb = rng.next_u8(1, 255);
                },
                OverwriteKind::RelativeOffset => {
                    let m = rng.next_u8(strategy.min_offset_magnitude, strategy.max_offset_magnitude);
                    nb = mutate_relative(b, m);
                    proof {
                        assert(mutated_ok(*strategy, b, nb)) by {
                            assert(strategy.min_offset_magnitude <= m <= strategy.max_offset_magnitude
                                && nb == spec_sat_sub(b, m));
                        }
                    }
                },
            }
            proof {
                assert(mutated_ok(*strategy, content@[i as int], nb));
            }
        }
        let ghost r_prev = r@;
        r.push(nb);
        proof {
            assert(r@ == r_prev.push(nb));
            assert forall|j: int| #![trigger content@[j]]
                0 <= j < i + 1 && !(offsets@.contains(j as u64) && range.interior_contains(j))
                    implies r@[j] == content@[j] by {
                if j == i as int {
                    assert(j as u64 == off);
                    assert(!hit);
                    assert(r@[j] == nb);
                } else {
                    assert(r@[j] == r_prev[j]);
                    assert(r_prev[j] == content@[j]);
                }
            }
            assert forall|j: int| #![trigger content@[j]]
                0 <= j < i + 1 && offsets@.contains(j as u64) && range.interior_contains(j)
                    implies mutated_ok(*strategy, content@[j], r@[j]) by {
                if j == i as int {
                    assert(j as u64 == off);
                    assert(hit);
                    assert(r@[j] == nb);
                } else {
                    assert(r@[j] == r_prev[j]);
                    assert(mutated_ok(*strategy, content@[j], r_prev[j]));
                }
            }
        }
        i = i + 1;
    }
    proof {
        if offsets@.len() == 0 {
            assert forall|j: int| 0 <= j < content@.len() implies !(#[trigger] offsets@.contains(
                j as u64,
            )) by {
                if offsets@.contains(j as u64) {
                    let w = choose|w: int| 0 <= w < offsets@.len() && offsets@[w] == j as u64;
                    assert(false);
                }
            }
            assert(r@ =~= content@);
        }
    }
    r
}

/// Under the Constant placement, every planned offset of the range that
/// lies within the stream carries, in `post`, a byte mutated from `pre`
/// by the strategy's overwrite rule.
pub open spec fn constant_offsets_mutated(
    start: int,
    end: int,
    s: Strategy,
    pre: Seq<u8>,
    post: Seq<u8>,
) -> bool {
    forall|j: int|
        0 <= j < spec_constant_offsets(start, end, s.overwrite_count as int).len() && (
        #[trigger] spec_constant_offsets(start, end, s.overwrite_count as int)[j]) < pre.len()
            ==> mutated_ok(
            s,
            pre[spec_constant_offsets(start, end, s.overwrite_count as int)[j] as int],
            post[spec_constant_offsets(start, end, s.overwrite_count as int)[j] as int],
        )
}

/// Corrupts one scan range: plans the offsets for the range under the
/// strategy, then applies them. Bytes outside the range's interior are
/// returned unchanged; a byte inside it is either unchanged or mutated by
/// the strategy's rule; a zero overwrite count returns the input byte for
/// byte; and under the Constant placement every planned offset within the
/// stream is actually overwritten.
pub fn corrupt_range(
    content: &Vec<u8>,
    start: u64,
    end: u64,
    strategy: &Strategy,
    rng: &mut SeededRng,
) -> (r: Vec<u8>)
    requires
        start <= end,
        strategy.wf(),
    ensures
        r@.len() == content@.len(),
        forall|i: int| #![trigger content@[i]]
            0 <= i < content@.len() && !(start < i < end) ==> r@[i] == content@[i],
        forall|i: int| #![trigger content@[i]]
            0 <= i < content@.len() && start < i < end ==> r@[i] == content@[i] || mutated_ok(
                *strategy,
                content@[i],
                r@[i],
            ),
        strategy.overwrite_count == 0 ==> r@ == content@,
        strategy.placement == PlacementKind::Constant ==> constant_offsets_mutated(
            start as int,
            end as int,
            *strategy,
            content@,
            r@,
        ),
{
    let offsets = get_overwrites(start, end, strategy, rng);
    let r = apply_offsets(content, ScanRange { start, end }, &offsets, strategy, rng);
    proof {
        let s = start as int;
        let e = end as int;
        let c = strategy.overwrite_count as int;
        if strategy.placement == PlacementKind::Constant {
            lemma_constant_offsets_properties(s, e, c);
            let co = spec_constant_offsets(s, e, c);
            assert forall|j: int|
                0 <= j < co.len() && (#[trigger] co[j]) < content@.len() implies mutated_ok(
                *strategy,
                content@[co[j] as int],
                r@[co[j] as int],
            ) by {
                let off = co[j];
                assert(offsets@.contains(off)) by {
                    assert(offsets@[j] == off);
                }
                assert(start < off < end);
                assert(content@[off as int] == content@[off as int]);
            }
        }
    }
    r
}

} // verus!
