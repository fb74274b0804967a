//! The two-stage pipeline: detect the entropy-coded scan ranges of a
//! byte stream, then corrupt each range in order, every pass consuming
//! the previous pass's output. Ranges are disjoint, so later passes never
//! touch bytes an earlier pass corrupted.

use vstd::prelude::*;
use crate::detector::{find_scans, ranges_match, spec_detect};
use crate::engine::{constant_offsets_mutated, corrupt_range, mutated_ok};
use crate::planner::{lemma_constant_offsets_properties, spec_constant_offsets};
use crate::rng::SeededRng;
use crate::strategy::{PlacementKind, Strategy};

verus! {

/// Whether byte offset `i` lies strictly inside one of the first `m`
/// ranges of `rs`.
pub open spec fn in_interior_of_prefix(rs: Seq<(int, int)>, m: int, i: int) -> bool {
    exists|k: int| 0 <= k < m && k < rs.len() && (#[trigger] rs[k]).0 < i < rs[k].1
}

/// Whether byte offset `i` lies strictly inside one of the ranges a
/// detection pass over `bytes` finds.
pub open spec fn in_detected_interior(bytes: Seq<u8>, stop_after_first: bool, i: int) -> bool {
    in_interior_of_prefix(
        spec_detect(bytes, stop_after_first),
        spec_detect(bytes, stop_after_first).len() as int,
        i,
    )
}

/// A fresh copy of a byte stream.
fn clone_bytes(v: &Vec<u8>) -> (r: Vec<u8>)
    ensures
        r@ == v@,
{
    let mut r: Vec<u8> = Vec::new();
    let mut i: usize = 0;
    while i < v.len()
        invariant
            i <= v@.len(),
            r@ == v@.take(i as int),
        decreases v@.len() - i,
    {
        r.push(v[i]);
        proof {
            assert(r@ =~= v@.take(i + 1));
        }
        i = i + 1;
    }
    proof {
        assert(r@ =~= v@);
    }
    r
}

/// Runs the whole pipeline on one byte stream: every byte outside the
/// interiors of the detected scan ranges is returned unchanged; every
/// byte inside one is either unchanged or mutated by the strategy's
/// overwrite rule; a zero overwrite count returns the input byte for
/// byte; and under the Constant placement every planned offset of every
/// detected range is actually overwritten.
pub fn corrupt_bytes(
    content: &Vec<u8>,
    strategy: &Strategy,
    rng: &mut SeededRng,
    stop_after_first: bool,
) -> (r: Vec<u8>)
    requires
        strategy.wf(),
    ensures
        r@.len() == content@.len(),
        forall|i: int| #![trigger content@[i]]
            0 <= i < content@.len() && !in_detected_interior(content@, stop_after_first, i)
                ==> r@[i] == content@[i],
        forall|i: int| #![trigger content@[i]]
            0 <= i < content@.len() && in_detected_interior(content@, stop_after_first, i)
                ==> r@[i] == content@[i] || mutated_ok(*strategy, content@[i], r@[i]),
        strategy.overwrite_count == 0 ==> r@ == content@,
        strategy.placement == PlacementKind::Constant ==> forall|k: int|
            0 <= k < spec_detect(content@, stop_after_first).len() ==> constant_offsets_mutated(
                (#[trigger] spec_detect(content@, stop_after_first)[k]).0,
                spec_detect(content@, stop_after_first)[k].1,
                *strategy,
                content@,
                r@,
            ),
{
    let ghost ps = spec_detect(content@, stop_after_first);
    let scans = find_scans(content, stop_after_first);
    let mut cur = clone_bytes(content);
    let mut k: usize = 0;
    while k < scans.len()
        invariant
            strategy.wf(),
            ps == spec_detect(content@, stop_after_first),
            ranges_match(scans@, ps),
            k <= scans@.len(),
            forall|j: int| 0 <= j < scans@.len() ==> (#[trigger] scans@[j]).start < scans@[j].end,
            forall|j1: int, j2: int|
                0 <= j1 < j2 < scans@.len() ==> (#[trigger] scans@[j1]).end
                    < (#[trigger] scans@[j2]).start,
            cur@.len() == content@.len(),
            forall|i: int| #![trigger content@[i]]
                0 <= i < content@.len() && !in_interior_of_prefix(ps, k as int, i) ==> cur@[i]
                    == content@[i],
            forall|i: int| #![trigger content@[i]]
                0 <= i < content@.len() && in_interior_of_prefix(ps, k as int, i) ==> cur@[i]
                    == content@[i] || mutated_ok(*strategy, content@[i], cur@[i]),
            strategy.overwrite_count == 0 ==> cur@ == content@,
            strategy.placement == PlacementKind::Constant ==> forall|k2: int|
                0 <= k2 < k ==> constant_offsets_mutated(
                    (#[trigger] ps[k2]).0,
                    ps[k2].1,
                    *strategy,
                    content@,
                    cur@,
                ),
        decreases scans@.len() - k,
    {
        let s = scans[k];
        let ghost prev = cur@;
        let next = corrupt_range(&cur, s.start, s.end, strategy, rng);
        cur = next;
        proof {
            let a = s.start as int;
            let b = s.end as int;
            assert(ps[k as int].0 == a && ps[k as int].1 == b);
            assert forall|i: int| #![trigger content@[i]]
                0 <= i < content@.len() && !in_interior_of_prefix(ps, k + 1, i) implies cur@[i]
                == content@[i] by {
                assert(!(a < i < b)) by {
                    if a < i < b {
                        assert(in_interior_of_prefix(ps, k + 1, i)) by {
                            assert(0 <= k < k + 1 && (k as int) < ps.len() && ps[k as int].0 < i
                                < ps[k as int].1);
                        }
                    }
                }
                assert(!in_interior_of_prefix(ps, k as int, i)) by {
                    if in_interior_of_prefix(ps, k as int, i) {
                        let w = choose|w: int|
                            0 <= w < k && w < ps.len() && (#[trigger] ps[w]).0 < i < ps[w].1;
                        assert(in_interior_of_prefix(ps, k + 1, i)) by {
                            assert(0 <= w < k + 1 && w < ps.len() && ps[w].0 < i < ps[w].1);
                        }
                    }
                }
                assert(cur@[i] == prev[i]);
            }
            assert forall|i: int| #![trigger content@[i]]
                0 <= i < content@.len() && in_interior_of_prefix(ps, k + 1, i) implies cur@[i]
                == content@[i] || mutated_ok(*strategy, content@[i], cur@[i]) by {
                if a < i < b {
                    // this byte was first touched by the pass just made:
                    // every earlier range ends before this one starts
                    assert(!in_interior_of_prefix(ps, k as int, i)) by {
                        if in_interior_of_prefix(ps, k as int, i) {
                            let w = choose|w: int|
                                0 <= w < k && w < ps.len() && (#[trigger] ps[w]).0 < i < ps[w].1;
                            assert(scans@[w].end < scans@[k as int].start);
                            assert(ps[w].1 < a);
                        }
                    }
                    assert(prev[i] == content@[i]);
                } else {
                    assert(cur@[i] == prev[i]);
                    assert(in_interior_of_prefix(ps, k as int, i)) by {
                        let w = choose|w: int|
                            0 <= w < k + 1 && w < ps.len() && (#[trigger] ps[w]).0 < i < ps[w].1;
                        assert(w != k);
                        assert(0 <= w < k && w < ps.len() && ps[w].0 < i < ps[w].1);
                    }
                }
            }
            if strategy.placement == PlacementKind::Constant {
                let c = strategy.overwrite_count as int;
                assert forall|k2: int| 0 <= k2 < k + 1 implies constant_offsets_mutated(
                    (#[trigger] ps[k2]).0,
                    ps[k2].1,
                    *strategy,
                    content@,
                    cur@,
                ) by {
                    let a2 = ps[k2].0;
                    let b2 = ps[k2].1;
                    assert(scans@[k2].start as int == a2 && scans@[k2].end as int == b2);
                    lemma_constant_offsets_properties(a2, b2, c);
                    let co = spec_constant_offsets(a2, b2, c);
                    assert forall|j: int|
                        0 <= j < co.len() && (#[trigger] co[j]) < content@.len() implies mutated_ok(
                        *strategy,
                        content@[co[j] as int],
                        cur@[co[j] as int],
                    ) by {
                        let off = co[j] as int;
                        assert(a2 < co[j] < b2);
                        if k2 < k {
                            // the pass just made stays outside this earlier
                            // range's interior, and the invariant already
                            // covered its planned offsets
                            assert(scans@[k2].end < scans@[k as int].start);
                            assert(!(a < off < b));
                            assert(cur@[off] == prev[off]);
                            assert(mutated_ok(*strategy, content@[off], prev[off]));
                        } else {
                            // the pass just made overwrote this offset; the
                            // byte it read was still the original, since no
                            // earlier range's interior reaches into this one
                            assert(mutated_ok(*strategy, prev[off], cur@[off]));
                            assert(!in_interior_of_prefix(ps, k as int, off)) by {
                                if in_interior_of_prefix(ps, k as int, off) {
                                    let w = choose|w: int|
                                        0 <= w < k && w < ps.len() && (#[trigger] ps[w]).0 < off
                                            < ps[w].1;
                                    assert(scans@[w].end < scans@[k as int].start);
                                    assert(ps[w].1 < a);
                                }
                            }
                            assert(prev[off] == content@[off]);
                        }
                    }
                }
            }
        }
        k = k + 1;
    }
    proof {
        assert(k as int == ps.len());
    }
    cur
}

} // verus!
