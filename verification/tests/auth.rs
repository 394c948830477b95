use nitrox::auth::{
    admin_call, authenticate, decoy_salt, decoy_verifier, list_reply, password_check, serve_admin,
    serve_authenticate, Account, Admin, AdminCall, AdminOp, AuthOutcome, Check, KError, Refusal,
    Refused,
};

const ALICE: Account<'static> = Account { name: b"alice", home: b"/home/alice" };

#[test]
fn correct_password_authenticates() {
    assert_eq!(
        authenticate(Some(ALICE), true),
        AuthOutcome::Authenticated { principal: b"alice", home: b"/home/alice" }
    );
}

#[test]
fn wrong_password_denied() {
    assert_eq!(authenticate(Some(ALICE), false), AuthOutcome::Denied);
}

#[test]
fn unknown_user_denied() {
    assert_eq!(authenticate(None, false), AuthOutcome::Denied);
    assert_eq!(authenticate(None, true), AuthOutcome::Denied, "the decoy's result is not read");
}

#[test]
fn an_unknown_user_costs_a_derivation_too() {
    assert_eq!(password_check(true), Check::Account);
    assert_eq!(password_check(false), Check::Decoy);
    assert_eq!(decoy_salt(), [0xa5; 8]);
    assert_eq!(decoy_verifier(32), vec![0u8; 32]);
}

#[test]
fn serve_builds_authenticated_then_denied_replies() {
    match serve_authenticate(true, Some(ALICE), true) {
        Some(AuthOutcome::Authenticated { home, .. }) => assert_eq!(home, b"/home/alice"),
        other => panic!("{other:?}"),
    }
    assert_eq!(serve_authenticate(true, Some(ALICE), false), Some(AuthOutcome::Denied));
}

#[test]
fn serve_rejects_malformed_request() {
    assert!(serve_authenticate(false, Some(ALICE), true).is_none());
    assert_eq!(
        serve_authenticate(true, Some(ALICE), true),
        Some(AuthOutcome::Authenticated { principal: b"alice", home: b"/home/alice" })
    );
    assert_eq!(serve_authenticate(true, Some(ALICE), false), Some(AuthOutcome::Denied));
}

#[test]
fn an_admin_request_is_refused_for_each_reason() {
    let refused = |op, body: &[u8], parsed, edited| match serve_admin(op, body, parsed, None, edited)
    {
        Admin::Refused(r) => Some((r, r.kerror())),
        _ => None,
    };
    let edit = |r, k| Some((Refused::Edit(r), k));
    assert_eq!(
        refused(AdminOp::Add, b"", true, Err(Refusal::Exists)),
        edit(Refusal::Exists, KError::AlreadyExists)
    );
    assert_eq!(
        refused(AdminOp::Add, b"", true, Err(Refusal::BadName)),
        edit(Refusal::BadName, KError::InvalidArgument)
    );
    assert_eq!(
        refused(AdminOp::Add, b"", true, Err(Refusal::BadPassword)),
        edit(Refusal::BadPassword, KError::InvalidArgument)
    );
    assert_eq!(
        refused(AdminOp::Remove, b"bob", false, Err(Refusal::NoSuchAccount)),
        edit(Refusal::NoSuchAccount, KError::NotFound)
    );
    assert_eq!(
        refused(AdminOp::SetPassword, b"", true, Err(Refusal::NoSuchAccount)),
        edit(Refusal::NoSuchAccount, KError::NotFound)
    );
    assert_eq!(
        refused(AdminOp::Add, b"", true, Err(Refusal::TooLarge)),
        edit(Refusal::TooLarge, KError::TooLarge)
    );
    assert_eq!(
        refused(AdminOp::Add, b"", false, Ok(1)),
        Some((Refused::Malformed, KError::InvalidArgument))
    );
    assert_eq!(
        refused(AdminOp::List, b"x", true, Ok(1)),
        Some((Refused::Malformed, KError::InvalidArgument))
    );
    assert_eq!(
        refused(AdminOp::Other, b"", true, Ok(1)),
        Some((Refused::NotAdmin, KError::Unsupported)),
        "an admin session does not authenticate"
    );
}

#[test]
fn an_account_is_added_changed_and_removed() {
    for op in [AdminOp::Add, AdminOp::SetPassword, AdminOp::Remove] {
        assert_eq!(admin_call(op, 3, true), AdminCall::Edit);
        assert_eq!(serve_admin(op, b"bob", true, None, Ok(77)), Admin::Write(77));
    }
    assert_eq!(admin_call(AdminOp::Add, 3, false), AdminCall::Nothing);
    assert_eq!(admin_call(AdminOp::Other, 0, true), AdminCall::Nothing);
}

#[test]
fn a_list_names_every_account() {
    assert_eq!(admin_call(AdminOp::List, 0, false), AdminCall::List);
    let listed = list_reply(true, &vec![true, true], 40);
    assert_eq!(serve_admin(AdminOp::List, b"", false, listed, Ok(0)), Admin::Reply(40));
}

#[test]
fn a_list_that_does_not_fit_is_refused() {
    for listed in [list_reply(false, &vec![], 8), list_reply(true, &vec![true, false], 8)] {
        assert_eq!(listed, None);
        let a = serve_admin(AdminOp::List, b"", false, listed, Ok(0));
        assert_eq!(a, Admin::Refused(Refused::ListTooLong));
    }
    assert_eq!(Refused::ListTooLong.kerror(), KError::TooLarge);
}

#[test]
fn every_refusal_says_why() {
    assert_eq!(Refused::Malformed.why(), Some("a malformed request"));
    assert_eq!(Refused::NotAdmin.why(), Some("not an administrative request"));
    assert_eq!(
        Refused::ListTooLong.why(),
        Some("the account list does not fit in one message")
    );
    assert_eq!(Refused::Edit(Refusal::Exists).why(), None);
}
