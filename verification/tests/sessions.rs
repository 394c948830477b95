use nitrox::sessions::{
    answer_resolve, answer_session, db_fits, lookup_result, payload_len, signalled, stamp_header,
    Answer, Incoming, Resolve, ResolveAnswer, Sessions, MSG_LEN,
};

#[test]
fn a_bound_session_is_waited_for_until_it_is_freed() {
    let mut s = Sessions::new(3);
    assert_eq!(s.wait_set(9), vec![9]);
    assert_eq!(s.free_slot(), Some(0));
    s.bind(0, 70);
    s.bind(2, 71);
    assert_eq!(s.free_slot(), Some(1));
    assert_eq!(s.wait_set(9), vec![9, 70, 71]);
    s.bind(1, 72);
    assert_eq!(s.free_slot(), None);
    assert_eq!(s.wait_set(9), vec![9, 70, 72, 71], "no more than the table and one");
    s.free(72);
    assert_eq!(s.wait_set(9), vec![9, 70, 71], "the others are kept");
    s.unbind(0);
    assert_eq!(s.wait_set(9), vec![9, 71]);
}

#[test]
fn a_header_is_stamped_and_read_back() {
    let mut msg = vec![7u8; MSG_LEN];
    stamp_header(&mut msg, 0x0102, 1);
    assert_eq!(&msg[..10], &[7, 7, 7, 7, 2, 1, 0, 0, 1, 7]);
    assert_eq!(payload_len(&msg), 0x0102);
    stamp_header(&mut msg, 5000, 0);
    assert_eq!(payload_len(&msg), MSG_LEN - 24, "no further than the message reaches");
}

#[test]
fn the_handles_of_a_wait_are_its_first_words() {
    let mut results = vec![0u8; 72];
    results[0] = 5;
    results[24..32].copy_from_slice(&0x1_0000_0002u64.to_le_bytes());
    results[48] = 9;
    assert_eq!(signalled(&results, 2), vec![5, 0x1_0000_0002]);
}

#[test]
fn a_lookup_gives_its_handle_only_where_it_succeeded() {
    let mut results = [0u8; 24];
    results[16] = 44;
    assert_eq!(lookup_result(1, &results), 44);
    assert_eq!(lookup_result(0, &results), 0);
    results[8] = 0xFE;
    assert_eq!(lookup_result(1, &results), 0);
}

#[test]
fn a_database_is_loaded_only_if_it_fits() {
    assert!(db_fits(0, 1));
    assert!(db_fits(0, 4096));
    assert!(!db_fits(-1, 100));
    assert!(!db_fits(0, 0));
    assert!(!db_fits(0, 4097));
}

#[test]
fn only_the_services_own_name_opens_a_session() {
    let open = Resolve::Request { op: 3, request_id: 8, suffix: Some(0) };
    assert_eq!(answer_resolve(open), ResolveAnswer::Open { request_id: 8 });
    for suffix in [None, Some(1)] {
        let m = Resolve::Request { op: 3, request_id: 8, suffix };
        assert_eq!(answer_resolve(m), ResolveAnswer::NotFound { op: 3, request_id: 8 });
    }
    assert_eq!(
        answer_resolve(Resolve::Other { op: 4, request_id: 9 }),
        ResolveAnswer::NotFound { op: 4, request_id: 9 }
    );
    assert_eq!(
        answer_resolve(Resolve::Undecodable),
        ResolveAnswer::NotFound { op: 0, request_id: 0 }
    );
}

#[test]
fn a_refused_request_is_answered_with_a_flagged_denial() {
    let a = answer_session(Incoming::Authenticate { request_id: 5, built: Some(30) }, 4);
    assert_eq!(a, Answer { request_id: 5, len: 30, error: false });
    let a = answer_session(Incoming::Authenticate { request_id: 5, built: None }, 4);
    assert_eq!(a, Answer { request_id: 5, len: 4, error: true });
    assert!(a.is_sent());
    let a = answer_session(Incoming::Other { request_id: 6 }, 4);
    assert_eq!(a, Answer { request_id: 6, len: 4, error: true });
    let a = answer_session(Incoming::Undecodable, 4);
    assert_eq!(a, Answer { request_id: 0, len: 0, error: true });
    assert!(!a.is_sent());
}
