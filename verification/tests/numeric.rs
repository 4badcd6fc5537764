use validator_store::numeric::{LoadError, Numeric};

#[test]
fn narrowing_drops_the_fraction() {
    let n = Numeric::new(12345, 2).unwrap();
    assert_eq!(n.to_u64(), Ok(123));
    assert_eq!(n.to_u128(), Ok(123));
}

#[test]
fn narrowing_refuses_negative_values() {
    let n = Numeric::new(-1, 0).unwrap();
    assert_eq!(n.to_u64(), Err(LoadError::ExceedsU64));
    assert_eq!(n.to_u128(), Err(LoadError::ExceedsU128));
    let half = Numeric::new(-5, 1).unwrap();
    assert_eq!(half.to_u64(), Err(LoadError::ExceedsU64));
}

#[test]
fn narrowing_refuses_what_needs_more_than_64_bits() {
    let n = Numeric::new(u64::MAX as i128 + 1, 0).unwrap();
    assert_eq!(n.to_u64(), Err(LoadError::ExceedsU64));
    assert_eq!(n.to_u128(), Ok(u64::MAX as u128 + 1));
    let m = Numeric::new(u64::MAX as i128, 0).unwrap();
    assert_eq!(m.to_u64(), Ok(u64::MAX));
}

#[test]
fn numerics_outside_the_representable_range_are_not_made() {
    assert!(Numeric::new(1, 29).is_none());
    assert!(Numeric::new(1i128 << 96, 0).is_none());
    assert!(Numeric::new(-(1i128 << 96), 0).is_none());
    assert!(Numeric::new((1i128 << 96) - 1, 28).is_some());
}

#[test]
fn whole_numbers_round_trip() {
    let n = Numeric::from_u64(42);
    assert_eq!(n.get_mantissa(), 42);
    assert_eq!(n.get_scale(), 0);
    assert_eq!(n.to_u64(), Ok(42));
}
