use nitrox::child::{
    avx2_usable, bind_denied, expected_sum, lanes, lookup, nap, received, role_of, round_fault,
    state_is_readable, Lookup, Role,
};

#[test]
fn the_role_is_the_low_byte_and_the_seed_is_above_it() {
    assert_eq!(role_of(0), Role::Send);
    assert_eq!(role_of(1), Role::Receive);
    assert_eq!(role_of(2), Role::Exit);
    assert_eq!(role_of(0x0503), Role::Float(5));
    assert_eq!(role_of(0x0500), Role::Send);
    assert_eq!(role_of(9), Role::Receive);
}

#[test]
fn a_receive_needs_all_three() {
    assert!(received(1, 0, 1));
    assert!(!received(0, 0, 1));
    assert!(!received(1, -1, 1));
    assert!(!received(1, 0, 2));
}

#[test]
fn a_lookup_resolves_misses_or_fails() {
    let mut results = [0u8; 24];
    assert_eq!(lookup(-1, 1, &results), Lookup::Failed);
    assert_eq!(lookup(4, 1, &results), Lookup::Resolved);
    assert_eq!(lookup(4, 0, &results), Lookup::Missed);
    results[11] = 0xFF;
    assert_eq!(lookup(4, 1, &results), Lookup::Missed);
    assert!(bind_denied(-2));
    assert!(!bind_denied(0));
}

#[test]
fn vector_arithmetic_needs_the_unit_and_the_state() {
    const OSXSAVE: u32 = 1 << 27;
    assert!(state_is_readable(OSXSAVE));
    assert!(!state_is_readable(0));
    assert_eq!(avx2_usable(0, 0x20, 6), Ok(false));
    assert_eq!(avx2_usable(OSXSAVE, 0x20, 7), Ok(true));
    assert_eq!(avx2_usable(OSXSAVE, 0, 7), Ok(false));
    assert_eq!(avx2_usable(OSXSAVE, 0, 2), Ok(false));
    assert_eq!(avx2_usable(OSXSAVE, 0x20, 2), Err(23));
}

#[test]
fn the_expected_sum_is_the_sum_of_the_squares() {
    assert_eq!(lanes(0), vec![1, 2, 3, 4, 5, 6, 7, 8]);
    assert_eq!(expected_sum(0), 204);
    let v = lanes(9);
    assert_eq!(v[0], 1025);
    let sum: f64 = v.iter().map(|&n| (n as f64) * (n as f64)).sum();
    assert_eq!(sum, expected_sum(9) as f64, "exact in a double");
}

#[test]
fn a_round_fails_with_the_status_of_what_went_wrong() {
    assert_eq!(round_fault(true, true, None), None);
    assert_eq!(round_fault(true, true, Some(true)), None);
    assert_eq!(round_fault(false, false, None), Some(21));
    assert_eq!(round_fault(true, false, Some(false)), Some(20));
    assert_eq!(round_fault(true, true, Some(false)), Some(22));
    assert_eq!(nap(5, 2), (2_000_005, 1_002_000_005));
}
