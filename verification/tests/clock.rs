use school_substitution_plan_alert::clock::stamp_of;

#[test]
fn time_stamp_is_the_reading_cut_to_64_bits() {
    assert_eq!(stamp_of(None), 0);
    assert_eq!(stamp_of(Some(0)), 0);
    assert_eq!(stamp_of(Some(1632096000123)), 1632096000123);
    assert_eq!(stamp_of(Some(18446744073709551615)), 18446744073709551615);
    assert_eq!(stamp_of(Some(18446744073709551616)), 0);
    assert_eq!(stamp_of(Some(18446744073709551616 + 77)), 77);
    assert_eq!(stamp_of(Some(u128::MAX)), u64::MAX);
}
