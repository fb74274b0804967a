use jpeg_glitch::detector::{find_scans, ScanRange};
use jpeg_glitch::engine::{apply_offsets, corrupt_range, mutate_relative};
use jpeg_glitch::pipeline::corrupt_bytes;
use jpeg_glitch::planner::get_overwrites;
use jpeg_glitch::rng::SeededRng;
use jpeg_glitch::strategy::{OverwriteKind, PlacementKind, Strategy};

fn fixture() -> Vec<u8> {
    vec![0xff, 0xd8, 0xff, 0xda, 0x00, 0x04, 0xaa, 0xbb, 0xcc, 0xff, 0xd9]
}

fn strategy(
    placement: PlacementKind,
    overwrite: OverwriteKind,
    count: u32,
    min: u8,
    max: u8,
) -> Strategy {
    Strategy {
        placement,
        overwrite,
        overwrite_count: count,
        min_offset_magnitude: min,
        max_offset_magnitude: max,
    }
}

#[test]
fn constant_placement_is_evenly_spaced() {
    let mut rng = SeededRng::from_seed(1);
    let s = strategy(PlacementKind::Constant, OverwriteKind::Random, 3, 1, 1);
    assert_eq!(get_overwrites(0, 10, &s, &mut rng), vec![3, 6, 9]);
}

#[test]
fn constant_placement_drops_an_offset_landing_on_the_end() {
    let mut rng = SeededRng::from_seed(1);
    let s = strategy(PlacementKind::Constant, OverwriteKind::Random, 5, 1, 1);
    // interval 2; the fifth offset would be the end itself
    assert_eq!(get_overwrites(0, 10, &s, &mut rng), vec![2, 4, 6, 8]);
}

#[test]
fn constant_placement_with_zero_count_is_empty() {
    let mut rng = SeededRng::from_seed(1);
    let s = strategy(PlacementKind::Constant, OverwriteKind::Random, 0, 1, 1);
    assert!(get_overwrites(0, 10, &s, &mut rng).is_empty());
}

#[test]
fn constant_placement_on_a_narrow_range_is_empty() {
    let mut rng = SeededRng::from_seed(1);
    let s = strategy(PlacementKind::Constant, OverwriteKind::Random, 10, 1, 1);
    assert!(get_overwrites(5, 7, &s, &mut rng).is_empty());
}

#[test]
fn random_placement_is_distinct_and_strictly_inside() {
    let mut rng = SeededRng::from_seed(7);
    let s = strategy(PlacementKind::Random, OverwriteKind::Random, 5, 1, 1);
    let offsets = get_overwrites(10, 20, &s, &mut rng);
    assert_eq!(offsets.len(), 5);
    for (i, a) in offsets.iter().enumerate() {
        assert!(10 < *a && *a < 20);
        for b in offsets[..i].iter() {
            assert_ne!(a, b);
        }
    }
}

#[test]
fn random_placement_delivers_the_full_count() {
    // as many offsets requested as the interior holds: all of it is used
    let mut rng = SeededRng::from_seed(9);
    let s = strategy(PlacementKind::Random, OverwriteKind::Random, 4, 1, 1);
    let mut offsets = get_overwrites(0, 5, &s, &mut rng);
    offsets.sort();
    assert_eq!(offsets, vec![1, 2, 3, 4]);
}

#[test]
fn random_placement_is_capped_by_the_interior() {
    let mut rng = SeededRng::from_seed(13);
    let s = strategy(PlacementKind::Random, OverwriteKind::Random, 10, 1, 1);
    let mut offsets = get_overwrites(10, 14, &s, &mut rng);
    offsets.sort();
    assert_eq!(offsets, vec![11, 12, 13]);
}

#[test]
fn random_placement_on_an_empty_interior_is_empty() {
    let mut rng = SeededRng::from_seed(13);
    let s = strategy(PlacementKind::Random, OverwriteKind::Random, 10, 1, 1);
    assert!(get_overwrites(6, 6, &s, &mut rng).is_empty());
    assert!(get_overwrites(6, 7, &s, &mut rng).is_empty());
}

#[test]
fn empty_offset_set_leaves_bytes_identical() {
    let mut rng = SeededRng::from_seed(3);
    let s = strategy(PlacementKind::Random, OverwriteKind::Random, 4, 1, 1);
    let content = fixture();
    let range = ScanRange { start: 7, end: 9 };
    let out = apply_offsets(&content, range, &vec![], &s, &mut rng);
    assert_eq!(out, content);
}

#[test]
fn relative_offset_saturates_instead_of_wrapping() {
    // magnitude larger than the byte: unchanged
    assert_eq!(mutate_relative(5, 9), 5);
    assert_eq!(mutate_relative(0, 1), 0);
    // ordinary subtraction otherwise
    assert_eq!(mutate_relative(200, 7), 193);
    assert_eq!(mutate_relative(9, 9), 0);
}

#[test]
fn corrupting_the_fixture_changes_only_the_entropy_byte() {
    let content = fixture();
    let scans = find_scans(&content, false);
    assert_eq!(scans, vec![ScanRange { start: 7, end: 9 }]);
    let s = strategy(PlacementKind::Random, OverwriteKind::Random, 1, 1, 1);
    let mut rng = SeededRng::from_seed(11);
    let out = corrupt_range(&content, scans[0].start, scans[0].end, &s, &mut rng);
    assert_eq!(out.len(), content.len());
    for i in 0..content.len() {
        if i != 8 {
            assert_eq!(out[i], content[i], "byte {} outside the range changed", i);
        }
    }
    // the one interior byte was overwritten with a non-zero value
    assert!(out[8] >= 1);
}

#[test]
fn relative_corruption_of_the_fixture_is_exact() {
    let content = fixture();
    let s = strategy(PlacementKind::Random, OverwriteKind::RelativeOffset, 1, 1, 1);
    let mut rng = SeededRng::from_seed(11);
    let out = corrupt_bytes(&content, &s, &mut rng, false);
    let mut expected = fixture();
    expected[8] = 0xcc - 1;
    assert_eq!(out, expected);
}

#[test]
fn zero_overwrite_count_leaves_the_stream_identical() {
    let content = fixture();
    let s = strategy(PlacementKind::Random, OverwriteKind::Random, 0, 1, 1);
    let mut rng = SeededRng::from_seed(2);
    assert_eq!(corrupt_bytes(&content, &s, &mut rng, false), content);
}

#[test]
fn constant_placement_corrupts_its_planned_offsets_exactly() {
    // a scan with nine entropy bytes: range (7, 17), interval 10 / 3 = 3,
    // planned offsets 10, 13 and 16
    let content = vec![
        0xff, 0xd8, 0xff, 0xda, 0x00, 0x04, 0xaa, 0xbb, 0x10, 0x11, 0x12, 0x13, 0x14, 0x15,
        0x16, 0x17, 0x18, 0xff, 0xd9,
    ];
    let scans = find_scans(&content, false);
    assert_eq!(scans, vec![ScanRange { start: 7, end: 17 }]);
    let s = strategy(PlacementKind::Constant, OverwriteKind::RelativeOffset, 3, 1, 1);
    let mut rng = SeededRng::from_seed(4);
    let out = corrupt_bytes(&content, &s, &mut rng, false);
    let mut expected = content.clone();
    expected[10] -= 1;
    expected[13] -= 1;
    expected[16] -= 1;
    assert_eq!(out, expected);
}

#[test]
fn same_seed_gives_identical_output() {
    let mut content = fixture();
    content.extend(fixture());
    let s = strategy(PlacementKind::Random, OverwriteKind::Random, 3, 1, 1);
    let mut rng_a = SeededRng::from_seed(42);
    let out_a = corrupt_bytes(&content, &s, &mut rng_a, false);
    let mut rng_b = SeededRng::from_seed(42);
    let out_b = corrupt_bytes(&content, &s, &mut rng_b, false);
    assert_eq!(out_a, out_b);
}

#[test]
fn different_seeds_may_differ_but_stay_in_the_ranges() {
    let content = fixture();
    let s = strategy(PlacementKind::Random, OverwriteKind::Random, 1, 1, 1);
    let mut rng = SeededRng::from_seed(5);
    let out = corrupt_bytes(&content, &s, &mut rng, false);
    assert_eq!(out.len(), content.len());
    for i in 0..content.len() {
        if i != 8 {
            assert_eq!(out[i], content[i]);
        }
    }
}
