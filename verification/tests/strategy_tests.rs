use jpeg_glitch::strategy::{
    decimal_string, strategy_to_str, OverwriteKind, PlacementKind, Strategy,
};

#[test]
fn decimal_strings_are_exact() {
    assert_eq!(decimal_string(0), "0");
    assert_eq!(decimal_string(7), "7");
    assert_eq!(decimal_string(10), "10");
    assert_eq!(decimal_string(500), "500");
    assert_eq!(decimal_string(u64::MAX), "18446744073709551615");
}

#[test]
fn strategy_id_joins_the_field_values() {
    let s = Strategy {
        placement: PlacementKind::Random,
        overwrite: OverwriteKind::RelativeOffset,
        overwrite_count: 500,
        min_offset_magnitude: 1,
        max_offset_magnitude: 7,
    };
    assert_eq!(strategy_to_str(&s), "Random_RelativeOffset_500_1_7");
}

#[test]
fn distinct_sweep_configurations_get_distinct_ids() {
    let a = Strategy {
        placement: PlacementKind::Constant,
        overwrite: OverwriteKind::Random,
        overwrite_count: 16,
        min_offset_magnitude: 1,
        max_offset_magnitude: 255,
    };
    let mut b = a;
    b.overwrite_count = 32;
    let mut c = a;
    c.min_offset_magnitude = 2;
    assert_eq!(strategy_to_str(&a), "Constant_Random_16_1_255");
    assert_eq!(strategy_to_str(&b), "Constant_Random_32_1_255");
    assert_eq!(strategy_to_str(&c), "Constant_Random_16_2_255");
    assert_ne!(strategy_to_str(&a), strategy_to_str(&b));
    assert_ne!(strategy_to_str(&a), strategy_to_str(&c));
}
