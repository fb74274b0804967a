use jpeg_glitch::detector::{find_scans, state_machine, ScanRange, ScanState};

fn fixture() -> Vec<u8> {
    vec![0xff, 0xd8, 0xff, 0xda, 0x00, 0x04, 0xaa, 0xbb, 0xcc, 0xff, 0xd9]
}

#[test]
fn detects_single_scan_in_fixture() {
    let scans = find_scans(&fixture(), false);
    assert_eq!(scans, vec![ScanRange { start: 7, end: 9 }]);
}

#[test]
fn fixture_interior_is_exactly_the_entropy_byte() {
    let scans = find_scans(&fixture(), false);
    assert_eq!(scans.len(), 1);
    let r = scans[0];
    let interior: Vec<u64> = (0..fixture().len() as u64)
        .filter(|i| r.start < *i && *i < r.end)
        .collect();
    assert_eq!(interior, vec![8]);
}

#[test]
fn no_start_of_scan_yields_no_ranges() {
    let bytes = vec![0x00, 0x01, 0xff, 0xd8, 0x12, 0x34];
    assert!(find_scans(&bytes, false).is_empty());
    assert!(find_scans(&bytes, true).is_empty());
}

#[test]
fn empty_and_single_byte_streams_yield_no_ranges() {
    assert!(find_scans(&vec![], false).is_empty());
    assert!(find_scans(&vec![0xff], false).is_empty());
}

#[test]
fn truncated_entropy_data_emits_no_trailing_range() {
    let bytes = vec![0xff, 0xda, 0x00, 0x04, 0xaa, 0xbb, 0xcc, 0xcc];
    assert!(find_scans(&bytes, false).is_empty());
}

#[test]
fn stuffed_byte_does_not_end_a_scan() {
    // 0xFF 0x00 inside entropy data is byte stuffing, not a marker
    let bytes = vec![
        0xff, 0xd8, 0xff, 0xda, 0x00, 0x04, 0xaa, 0xbb, 0xcc, 0xff, 0x00, 0xcc, 0xff, 0xd9,
    ];
    let scans = find_scans(&bytes, false);
    assert_eq!(scans, vec![ScanRange { start: 7, end: 12 }]);
}

#[test]
fn two_scans_are_ordered_and_disjoint() {
    let mut bytes = fixture();
    bytes.extend(fixture());
    let scans = find_scans(&bytes, false);
    assert_eq!(
        scans,
        vec![ScanRange { start: 7, end: 9 }, ScanRange { start: 18, end: 20 }]
    );
    assert!(scans[0].end < scans[1].start);
}

#[test]
fn stop_after_first_keeps_only_the_first_scan() {
    let mut bytes = fixture();
    bytes.extend(fixture());
    let scans = find_scans(&bytes, true);
    assert_eq!(scans, vec![ScanRange { start: 7, end: 9 }]);
}

#[test]
fn state_machine_transitions() {
    // finding the Start-Of-Scan marker
    assert_eq!(
        state_machine(ScanState::LookingForScanStart, 0xff, 0xda, false),
        ScanState::ReadingHeaderLength
    );
    assert_eq!(
        state_machine(ScanState::LookingForScanStart, 0xff, 0xd8, false),
        ScanState::LookingForScanStart
    );
    // still inside the header bytes
    assert_eq!(
        state_machine(ScanState::ReadingHeaderLength, 0xda, 0x00, false),
        ScanState::ReadingHeaderLength
    );
    assert_eq!(
        state_machine(ScanState::ReadingHeaderLength, 0x00, 0x04, false),
        ScanState::ReadingEntropyData
    );
    // a stuffed byte stays inside entropy data
    assert_eq!(
        state_machine(ScanState::ReadingEntropyData, 0xff, 0x00, false),
        ScanState::ReadingEntropyData
    );
    assert_eq!(
        state_machine(ScanState::ReadingEntropyData, 0xab, 0xff, false),
        ScanState::ReadingEntropyData
    );
    // a genuine marker ends the scan
    assert_eq!(
        state_machine(ScanState::ReadingEntropyData, 0xff, 0xd9, false),
        ScanState::LookingForScanStart
    );
    assert_eq!(
        state_machine(ScanState::ReadingEntropyData, 0xff, 0xd9, true),
        ScanState::Terminated
    );
    assert_eq!(
        state_machine(ScanState::Terminated, 0xff, 0xda, true),
        ScanState::Terminated
    );
}
