use coursebuilder::rounding::round;

#[test]
fn test_round() {
    assert_eq!(30, round(0, 30));
    assert_eq!(30, round(10, 30));
    assert_eq!(10, round(12, 5));
    assert_eq!(30, round(20, 30));
    assert_eq!(30, round(30, 30));
    assert_eq!(30, round(40, 30));
    assert_eq!(60, round(50, 30));
}

#[test]
fn round_is_a_positive_multiple_within_one_raster() {
    for x in 0u64..200 {
        for r in [1u64, 5, 7, 30, 60] {
            let v = round(x, r);
            assert!(v >= r);
            assert_eq!(v % r, 0);
            assert!(v <= x + r);
            assert!(x <= v + r);
        }
    }
}

#[test]
fn round_ties_go_half_up() {
    assert_eq!(round(15, 30), 30);
    assert_eq!(round(45, 30), 60);
    assert_eq!(round(44, 30), 30);
}
