//! Scan boundary detection: a single forward pass over a JPEG byte stream
//! that tracks marker structure and emits the byte ranges holding
//! entropy-coded scan data.
//!
//! The pass examines consecutive byte pairs. A Start-Of-Scan marker
//! (`0xFF 0xDA`) opens a scan header; the low byte of the header's length
//! field gives the header length (a documented limitation: headers of 256
//! bytes or more are undercounted); once the header has been consumed the
//! entropy-coded data runs until a genuine marker (`0xFF` followed by a
//! byte other than `0x00`; `0xFF 0x00` is a stuffed byte, not a marker).

use vstd::prelude::*;

verus! {

/// The state of the marker-tracking pass.
#[derive(Clone, Copy, PartialEq, Eq, Structural, Debug)]
pub enum ScanState {
    LookingForScanStart,
    ReadingHeaderLength,
    ReadingEntropyData,
    Terminated,
}

/// One entropy-coded region. The corruptible bytes are those strictly
/// between `start` and `end`: `start` is the offset of the last header
/// byte and `end` the offset of the `0xFF` that opened the terminating
/// marker.
#[derive(Clone, Copy, PartialEq, Eq, Structural, Debug)]
pub struct ScanRange {
    pub start: u64,
    pub end: u64,
}

impl ScanRange {
    pub open spec fn wf(self) -> bool {
        self.start <= self.end
    }

    /// Whether byte offset `i` may be overwritten for this range.
    pub open spec fn interior_contains(self, i: int) -> bool {
        self.start < i < self.end
    }
}

/// The transition relation of the detector, on one byte pair `(b0, b1)`.
/// `stop_after_first` selects whether a genuine marker that ends entropy
/// data terminates the pass or resumes the search for a further scan.
pub open spec fn spec_step(s: ScanState, b0: u8, b1: u8, stop_after_first: bool) -> ScanState {
    match s {
        ScanState::LookingForScanStart => {
            if b0 == 0xff && b1 == 0xda {
                ScanState::ReadingHeaderLength
            } else {
                ScanState::LookingForScanStart
            }
        },
        ScanState::ReadingHeaderLength => {
            if (b0 == 0xff && b1 == 0xda) || b0 == 0xda {
                ScanState::ReadingHeaderLength
            } else {
                ScanState::ReadingEntropyData
            }
        },
        ScanState::ReadingEntropyData => {
            if b0 == 0xff && b1 != 0x00 {
                if stop_after_first {
                    ScanState::Terminated
                } else {
                    ScanState::LookingForScanStart
                }
            } else {
                ScanState::ReadingEntropyData
            }
        },
        ScanState::Terminated => ScanState::Terminated,
    }
}

/// One step of the detector's state machine.
pub fn state_machine(state: ScanState, b0: u8, b1: u8, stop_after_first: bool) -> (r: ScanState)
    ensures
        r == spec_step(state, b0, b1, stop_after_first),
{
    match state {
        ScanState::LookingForScanStart => {
            if b0 == 0xff && b1 == 0xda {
                ScanState::ReadingHeaderLength
            } else {
                ScanState::LookingForScanStart
            }
        },
        ScanState::ReadingHeaderLength => {
            if (b0 == 0xff && b1 == 0xda) || b0 == 0xda {
                ScanState::ReadingHeaderLength
            } else {
                ScanState::ReadingEntropyData
            }
        },
        ScanState::ReadingEntropyData => {
            if b0 == 0xff && b1 != 0x00 {
                if stop_after_first {
                    ScanState::Terminated
                } else {
                    ScanState::LookingForScanStart
                }
            } else {
                ScanState::ReadingEntropyData
            }
        },
        ScanState::Terminated => ScanState::Terminated,
    }
}

/// The full state carried by one detection pass, as a mathematical value:
/// the machine state, the most recently read header length and header
/// start, the start of the current entropy region once the header has been
/// consumed, and the ranges emitted so far (as pairs of byte offsets).
pub ghost struct DetectorModel {
    pub state: ScanState,
    pub header_len: int,
    pub header_start: int,
    pub scan_start: Option<int>,
    pub ranges: Seq<(int, int)>,
}

pub open spec fn detector_init() -> DetectorModel {
    DetectorModel {
        state: ScanState::LookingForScanStart,
        header_len: 0,
        header_start: 0,
        scan_start: None,
        ranges: Seq::empty(),
    }
}

/// The side effects of processing the byte pair at offsets `(i, i + 1)`:
/// while in the header, the pair's second byte is recorded as the header
/// length; a genuine marker that ends entropy data emits the open range,
/// provided its start was established; entering the header records where
/// it began; and once exactly `header_len + 1` bytes have passed since the
/// header began, the entropy region is marked as starting at the current
/// offset.
pub open spec fn detector_step(
    m: DetectorModel,
    b0: u8,
    b1: u8,
    i: int,
    stop_after_first: bool,
) -> DetectorModel {
    let next = spec_step(m.state, b0, b1, stop_after_first);
    if m.state == ScanState::ReadingHeaderLength {
        DetectorModel { state: next, header_len: b1 as int, scan_start: None, ..m }
    } else if m.state == ScanState::ReadingEntropyData && next != ScanState::ReadingEntropyData {
        match m.scan_start {
            Some(ss) => DetectorModel {
                state: next,
                scan_start: None,
                ranges: m.ranges.push((ss, i)),
                ..m
            },
            None => DetectorModel { state: next, ..m },
        }
    } else if m.state == ScanState::LookingForScanStart && next
        == ScanState::ReadingHeaderLength {
        DetectorModel { state: next, header_start: i, ..m }
    } else if m.state == ScanState::ReadingEntropyData && i == m.header_start + m.header_len
        + 1 {
        DetectorModel { state: next, scan_start: Some(i), ..m }
    } else {
        DetectorModel { state: next, ..m }
    }
}

/// The detector's state after processing the first `k` byte pairs of the
/// stream, that is the pairs at offsets `(0, 1)` up to `(k - 1, k)`.
pub open spec fn det_run(bytes: Seq<u8>, k: int, stop_after_first: bool) -> DetectorModel
    decreases k,
{
    if k <= 0 {
        detector_init()
    } else {
        detector_step(
            det_run(bytes, k - 1, stop_after_first),
            bytes[k - 1],
            bytes[k],
            k - 1,
            stop_after_first,
        )
    }
}

/// The number of byte pairs a stream of the given length offers.
pub open spec fn pair_count(len: nat) -> int {
    if len == 0 {
        0
    } else {
        len - 1
    }
}

/// The ranges that one full detection pass over `bytes` emits.
pub open spec fn spec_detect(bytes: Seq<u8>, stop_after_first: bool) -> Seq<(int, int)> {
    det_run(bytes, pair_count(bytes.len()), stop_after_first).ranges
}

/// The invariant of the detector model after `k` processed pairs: the
/// header length fits one byte, a recorded entropy start lies before the
/// current offset and after every emitted range, and the emitted ranges
/// are well-formed, ordered and pairwise disjoint.
pub open spec fn model_inv(m: DetectorModel, k: int) -> bool {
    &&& 0 <= m.header_len <= 255
    &&& (m.scan_start matches Some(ss) ==> 0 <= ss < k && (forall|j: int|
        0 <= j < m.ranges.len() ==> (#[trigger] m.ranges[j]).1 < ss))
    &&& (forall|j: int|
        0 <= j < m.ranges.len() ==> 0 <= (#[trigger] m.ranges[j]).0 < m.ranges[j].1 < k)
    &&& (forall|j1: int, j2: int|
        0 <= j1 < j2 < m.ranges.len() ==> (#[trigger] m.ranges[j1]).1
            < (#[trigger] m.ranges[j2]).0)
}

pub proof fn lemma_det_run_inv(bytes: Seq<u8>, k: int, stop_after_first: bool)
    ensures
        model_inv(det_run(bytes, k, stop_after_first), if k <= 0 { 0 } else { k }),
    decreases k,
{
    if k > 0 {
        lemma_det_run_inv(bytes, k - 1, stop_after_first);
    }
}

/// Every range a detection pass returns is well-formed (`start < end`),
/// and the ranges are strictly increasing and pairwise disjoint.
pub proof fn lemma_detect_ranges_ordered(bytes: Seq<u8>, stop_after_first: bool)
    ensures
        forall|j: int|
            0 <= j < spec_detect(bytes, stop_after_first).len() ==> 0 <= (#[trigger] spec_detect(
                bytes,
                stop_after_first,
            )[j]).0 < spec_detect(bytes, stop_after_first)[j].1,
        forall|j1: int, j2: int|
            0 <= j1 < j2 < spec_detect(bytes, stop_after_first).len() ==> (#[trigger] spec_detect(
                bytes,
                stop_after_first,
            )[j1]).1 < (#[trigger] spec_detect(bytes, stop_after_first)[j2]).0,
{
    lemma_det_run_inv(bytes, pair_count(bytes.len()), stop_after_first);
}

/// A stream in which no Start-Of-Scan marker pair occurs among the first
/// `k` pairs leaves the detector still searching, with nothing emitted.
proof fn lemma_no_sos_run(bytes: Seq<u8>, k: int, stop_after_first: bool)
    requires
        forall|i: int|
            0 <= i < k ==> !((#[trigger] bytes[i]) == 0xff && bytes[i + 1] == 0xda),
    ensures
        det_run(bytes, k, stop_after_first).state == ScanState::LookingForScanStart,
        det_run(bytes, k, stop_after_first).ranges == Seq::<(int, int)>::empty(),
    decreases k,
{
    if k > 0 {
        lemma_no_sos_run(bytes, k - 1, stop_after_first);
        assert(!(bytes[k - 1] == 0xff && bytes[k] == 0xda));
    }
}

/// A byte stream with no Start-Of-Scan marker yields no ranges.
pub proof fn lemma_no_sos_no_ranges(bytes: Seq<u8>, stop_after_first: bool)
    requires
        forall|i: int|
            0 <= i + 1 < bytes.len() ==> !((#[trigger] bytes[i]) == 0xff && bytes[i + 1]
                == 0xda),
    ensures
        spec_detect(bytes, stop_after_first) == Seq::<(int, int)>::empty(),
{
    lemma_no_sos_run(bytes, pair_count(bytes.len()), stop_after_first);
}

/// The exec ranges mirror the model's ranges pair for pair.
pub open spec fn ranges_match(rs: Seq<ScanRange>, ps: Seq<(int, int)>) -> bool {
    &&& rs.len() == ps.len()
    &&& (forall|j: int|
        0 <= j < rs.len() ==> (#[trigger] rs[j]).start == ps[j].0 && rs[j].end == ps[j].1)
}

/// One detection pass over the whole stream. Returns the entropy-coded
/// regions, exactly as the model `spec_detect` describes them; the ranges
/// are well-formed, strictly increasing and pairwise disjoint. A stream
/// that ends while entropy data is still open emits no trailing range.
pub fn find_scans(content: &Vec<u8>, stop_after_first: bool) -> (scans: Vec<ScanRange>)
    ensures
        ranges_match(scans@, spec_detect(content@, stop_after_first)),
        forall|j: int| 0 <= j < scans@.len() ==> (#[trigger] scans@[j]).start < scans@[j].end,
        forall|j1: int, j2: int|
            0 <= j1 < j2 < scans@.len() ==> (#[trigger] scans@[j1]).end
                < (#[trigger] scans@[j2]).start,
{
    let mut scans: Vec<ScanRange> = Vec::new();
    let n = content.len();
    if n == 0 {
        return scans;
    }
    let mut state = ScanState::LookingForScanStart;
    let mut header_len: u64 = 0;
    let mut header_start: u64 = 0;
    let mut scan_start: Option<u64> = None;
    let mut i: usize = 0;
    while i < n - 1
        invariant
            1 <= n == content@.len(),
            0 <= i <= n - 1,
            state == det_run(content@, i as int, stop_after_first).state,
            header_len as int == det_run(content@, i as int, stop_after_first).header_len,
            header_start as int == det_run(content@, i as int, stop_after_first).header_start,
            0 <= header_len <= 255,
            header_start < n,
            match scan_start {
                Some(ss) => det_run(content@, i as int, stop_after_first).scan_start
                    == Some(ss as int) && ss < n,
                None => det_run(content@, i as int, stop_after_first).scan_start
                    is None,
            },
            ranges_match(scans@, det_run(content@, i as int, stop_after_first).ranges),
            forall|j: int|
                0 <= j < scans@.len() ==> (#[trigger] scans@[j]).start < scans@[j].end,
            forall|j1: int, j2: int|
                0 <= j1 < j2 < scans@.len() ==> (#[trigger] scans@[j1]).end
                    < (#[trigger] scans@[j2]).start,
        decreases n - 1 - i,
    {
        let b0 = content[i];
        let b1 = content[i + 1];
        let next = state_machine(state, b0, b1, stop_after_first);
        proof {
            lemma_det_run_inv(content@, i as int, stop_after_first);
        }
        if matches!(state, ScanState::ReadingHeaderLength) {
            header_len = b1 as u64;
            scan_start = None;
        } else if matches!(state, ScanState::ReadingEntropyData) && !matches!(
            next,
            ScanState::ReadingEntropyData,
        ) {
            match scan_start {
                Some(ss) => {
                    scans.push(ScanRange { start: ss, end: i as u64 });
                    scan_start = None;
                },
                None => {},
            }
        } else if matches!(state, ScanState::LookingForScanStart) && matches!(
            next,
            ScanState::ReadingHeaderLength,
        ) {
            header_start = i as u64;
        } else if matches!(state, ScanState::ReadingEntropyData) {
            if i as u64 >= header_start && i as u64 - header_start == header_len + 1 {
                scan_start = Some(i as u64);
            }
        }
        state = next;
        i = i + 1;
    }
    proof {
        lemma_det_run_inv(content@, (n - 1) as int, stop_after_first);
    }
    scans
}

} // verus!
