use nitrox::store::{staged_dir, store_hash, store_path_for_all};

#[test]
fn the_hash_of_nothing_is_the_offset() {
    assert_eq!(store_hash(b""), "cbf29ce48422");
}

#[test]
fn the_hash_is_twelve_digits_of_the_known_values() {
    // The published values of the hash are af63dc4c8601ec8c and 85944171f73967e8.
    assert_eq!(store_hash(b"a"), "af63dc4c8601");
    assert_eq!(store_hash(b"foobar"), "85944171f739");
}

#[test]
fn a_package_is_named_by_what_its_programs_hold_together() {
    let one = store_path_for_all(&vec![b"foo".to_vec(), b"bar".to_vec()], "coreutils", "0.1.0");
    assert_eq!(one, "/store/85944171f739-coreutils-0.1.0");
    let two = store_path_for_all(&vec![b"foobar".to_vec()], "coreutils", "0.1.0");
    assert_eq!(one, two);
    assert_eq!(staged_dir(&one), "store/85944171f739-coreutils-0.1.0/bin");
}
