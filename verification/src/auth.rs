//! The authentication service's decisions: who is authenticated, and what an administrative
//! request is answered. The account database, the password derivation and the message codec are
//! other libraries' work; what they found is handed in.

use vstd::prelude::*;

verus! {

/// What a request to authenticate comes to.
#[derive(Debug, Clone, Copy, PartialEq, Eq)]
pub enum AuthOutcome<'a> {
    /// The credentials are those of an account: its name, and its home.
    Authenticated { principal: &'a [u8], home: &'a [u8] },
    /// They are not.
    Denied,
}

/// An account of the database.
#[derive(Debug, Clone, Copy)]
pub struct Account<'a> {
    pub name: &'a [u8],
    pub home: &'a [u8],
}

/// The password derivation that a request to authenticate is put through. There is one for every
/// request, so that an unknown name takes as long as a wrong password.
#[derive(Debug, Clone, Copy, PartialEq, Eq, Structural)]
pub enum Check {
    /// Against the account that was found.
    Account,
    /// Against the decoy, whose result is not read.
    Decoy,
}

/// The derivation for a name that was found, or was not.
pub open spec fn check_for(found: bool) -> Check {
    if found {
        Check::Account
    } else {
        Check::Decoy
    }
}

/// The derivation for a name that was found, or was not.
pub fn password_check(found: bool) -> (r: Check)
    ensures
        r == check_for(found),
        r == (if found {
            Check::Account
        } else {
            Check::Decoy
        }),
{
    if found {
        Check::Account
    } else {
        Check::Decoy
    }
}

/// The decoy's salt.
pub fn decoy_salt() -> (r: [u8; 8])
    ensures
        r@.len() == 8,
        forall|i: int| 0 <= i < 8 ==> #[trigger] r@[i] == 0xa5,
{
    [0xa5, 0xa5, 0xa5, 0xa5, 0xa5, 0xa5, 0xa5, 0xa5]
}

/// The decoy's verifier: zeros.
pub fn decoy_verifier(len: usize) -> (r: Vec<u8>)
    ensures
        r@ == Seq::new(len as nat, |i: int| 0u8),
{
    let mut v: Vec<u8> = Vec::new();
    let mut i: usize = 0;
    while i < len
        invariant
            i <= len,
            v@ == Seq::new(i as nat, |k: int| 0u8),
        decreases len - i,
    {
        v.push(0);
        i = i + 1;
        assert(v@ =~= Seq::new(i as nat, |k: int| 0u8));
    }
    v
}

/// What a request comes to: authenticated exactly where an account was found and its password
/// verified.
pub open spec fn outcome<'a>(found: Option<Account<'a>>, verified: bool) -> AuthOutcome<'a> {
    match found {
        Some(a) => if verified {
            AuthOutcome::Authenticated { principal: a.name, home: a.home }
        } else {
            AuthOutcome::Denied
        },
        None => AuthOutcome::Denied,
    }
}

/// Decides a request: the account of its name, if there is one, and whether the derivation that
/// [`password_check`] asks for verified.
pub fn authenticate<'a>(found: Option<Account<'a>>, verified: bool) -> (r: AuthOutcome<'a>)
    ensures
        r == outcome(found, verified),
{
    match found {
        Some(a) => if verified {
            AuthOutcome::Authenticated { principal: a.name, home: a.home }
        } else {
            AuthOutcome::Denied
        },
        None => AuthOutcome::Denied,
    }
}

/// An unknown name is answered as a wrong password is, whatever the decoy's derivation gave.
pub proof fn law_unknown_and_wrong_are_answered_alike<'a>(a: Account<'a>, decoy: bool)
    ensures
        outcome(None, decoy) == outcome(Some(a), false),
{
}

/// What a request to authenticate comes to, well formed or not.
pub open spec fn served<'a>(parsed: bool, found: Option<Account<'a>>, verified: bool) -> Option<
    AuthOutcome<'a>,
> {
    if parsed {
        Some(outcome(found, verified))
    } else {
        None
    }
}

/// Serves a request to authenticate: the outcome to reply with, and `None` for a malformed request.
pub fn serve_authenticate<'a>(parsed: bool, found: Option<Account<'a>>, verified: bool) -> (r: Option<
    AuthOutcome<'a>,
>)
    ensures
        r == served(parsed, found, verified),
        r == (if parsed {
            Some(outcome(found, verified))
        } else {
            None
        }),
{
    if parsed {
        Some(authenticate(found, verified))
    } else {
        None
    }
}

/// Why the account library refuses an edit.
#[derive(Debug, Clone, Copy, PartialEq, Eq, Structural)]
pub enum Refusal {
    BadName,
    BadPassword,
    Exists,
    NoSuchAccount,
    TooLarge,
}

/// Why an administrative request is refused.
#[derive(Debug, Clone, Copy, PartialEq, Eq, Structural)]
pub enum Refused {
    /// The edit cannot be made.
    Edit(Refusal),
    /// The request is malformed.
    Malformed,
    /// The request is not administrative.
    NotAdmin,
    /// The account list does not fit in one message.
    ListTooLong,
}

/// The kernel's errors that this service replies with.
#[derive(Debug, Clone, Copy, PartialEq, Eq, Structural)]
pub enum KError {
    InvalidArgument,
    AlreadyExists,
    NotFound,
    TooLarge,
    Unsupported,
    WouldBlock,
    KernelError,
}

impl Refused {
    /// The error that the refusal is replied with.
    pub open spec fn error(self) -> KError {
        match self {
            Refused::Edit(Refusal::BadName) => KError::InvalidArgument,
            Refused::Edit(Refusal::BadPassword) => KError::InvalidArgument,
            Refused::Malformed => KError::InvalidArgument,
            Refused::Edit(Refusal::Exists) => KError::AlreadyExists,
            Refused::Edit(Refusal::NoSuchAccount) => KError::NotFound,
            Refused::Edit(Refusal::TooLarge) => KError::TooLarge,
            Refused::ListTooLong => KError::TooLarge,
            Refused::NotAdmin => KError::Unsupported,
        }
    }

    /// The error that the refusal is replied with.
    pub fn kerror(self) -> (r: KError)
        ensures
            r == self.error(),
    {
        match self {
            Refused::Edit(Refusal::BadName) | Refused::Edit(Refusal::BadPassword)
            | Refused::Malformed => KError::InvalidArgument,
            Refused::Edit(Refusal::Exists) => KError::AlreadyExists,
            Refused::Edit(Refusal::NoSuchAccount) => KError::NotFound,
            Refused::Edit(Refusal::TooLarge) | Refused::ListTooLong => KError::TooLarge,
            Refused::NotAdmin => KError::Unsupported,
        }
    }

    /// The reason in words; `None` where it is the account library's to say.
    pub fn why(self) -> (r: Option<&'static str>)
        ensures
            match r {
                Some(s) => match self {
                    Refused::Malformed => s@ == "a malformed request"@,
                    Refused::NotAdmin => s@ == "not an administrative request"@,
                    Refused::ListTooLong => s@ == "the account list does not fit in one message"@,
                    Refused::Edit(_) => false,
                },
                None => self is Edit,
            },
    {
        match self {
            Refused::Edit(_) => None,
            Refused::Malformed => Some("a malformed request"),
            Refused::NotAdmin => Some("not an administrative request"),
            Refused::ListTooLong => Some("the account list does not fit in one message"),
        }
    }
}

/// What serving an administrative request comes to.
#[derive(Debug, Clone, Copy, PartialEq, Eq, Structural)]
pub enum Admin {
    /// A reply of this many bytes.
    Reply(usize),
    /// A new database of this many bytes, to be written.
    Write(usize),
    /// A refusal.
    Refused(Refused),
}

/// The administrative operations.
#[derive(Debug, Clone, Copy, PartialEq, Eq, Structural)]
pub enum AdminOp {
    List,
    Add,
    SetPassword,
    Remove,
    /// Any other operation.
    Other,
}

/// The reply of a listing, by whether the writer opened and what it took.
pub open spec fn listing(opened: bool, taken: Seq<bool>, len: usize) -> Option<usize> {
    if opened && forall|i: int| 0 <= i < taken.len() ==> #[trigger] taken[i] {
        Some(len)
    } else {
        None
    }
}

/// The reply of a listing: its length where the writer opened and took every account, and nothing
/// otherwise. A list is never cut short.
pub fn list_reply(opened: bool, taken: &Vec<bool>, len: usize) -> (r: Option<usize>)
    ensures
        r == listing(opened, taken@, len),
        r == (if opened && forall|i: int| 0 <= i < taken@.len() ==> #[trigger] taken@[i] {
            Some(len)
        } else {
            None
        }),
{
    if !opened {
        return None;
    }
    let mut i: usize = 0;
    while i < taken.len()
        invariant
            i <= taken.len(),
            forall|k: int| 0 <= k < i ==> #[trigger] taken@[k],
        decreases taken.len() - i,
    {
        if !taken[i] {
            return None;
        }
        i = i + 1;
    }
    Some(len)
}

/// What an edit comes to.
pub open spec fn edit(r: Result<usize, Refusal>) -> Admin {
    match r {
        Ok(n) => Admin::Write(n),
        Err(e) => Admin::Refused(Refused::Edit(e)),
    }
}

/// What an administrative request comes to.
pub open spec fn admin(
    op: AdminOp,
    body_len: nat,
    parsed: bool,
    listed: Option<usize>,
    edited: Result<usize, Refusal>,
) -> Admin {
    match op {
        AdminOp::List => if body_len > 0 {
            Admin::Refused(Refused::Malformed)
        } else {
            match listed {
                Some(n) => Admin::Reply(n),
                None => Admin::Refused(Refused::ListTooLong),
            }
        },
        AdminOp::Add => if parsed {
            edit(edited)
        } else {
            Admin::Refused(Refused::Malformed)
        },
        AdminOp::SetPassword => if parsed {
            edit(edited)
        } else {
            Admin::Refused(Refused::Malformed)
        },
        AdminOp::Remove => edit(edited),
        AdminOp::Other => Admin::Refused(Refused::NotAdmin),
    }
}

/// What has to be done before an administrative request can be decided.
#[derive(Debug, Clone, Copy, PartialEq, Eq, Structural)]
pub enum AdminCall {
    /// Nothing: the request is refused as it stands.
    Nothing,
    /// List the accounts.
    List,
    /// Make the edit on the accounts.
    Edit,
}

/// What has to be done for a request.
pub open spec fn call_for(op: AdminOp, body_len: nat, parsed: bool) -> AdminCall {
    match op {
        AdminOp::List => if body_len == 0 {
            AdminCall::List
        } else {
            AdminCall::Nothing
        },
        AdminOp::Add => if parsed {
            AdminCall::Edit
        } else {
            AdminCall::Nothing
        },
        AdminOp::SetPassword => if parsed {
            AdminCall::Edit
        } else {
            AdminCall::Nothing
        },
        AdminOp::Remove => AdminCall::Edit,
        AdminOp::Other => AdminCall::Nothing,
    }
}

/// What has to be done for a request. The database is not touched for one that is refused as it
/// stands.
pub fn admin_call(op: AdminOp, body_len: usize, parsed: bool) -> (r: AdminCall)
    ensures
        r == call_for(op, body_len as nat, parsed),
        r == (match op {
            AdminOp::List => if body_len == 0 {
                AdminCall::List
            } else {
                AdminCall::Nothing
            },
            AdminOp::Add => if parsed {
                AdminCall::Edit
            } else {
                AdminCall::Nothing
            },
            AdminOp::SetPassword => if parsed {
                AdminCall::Edit
            } else {
                AdminCall::Nothing
            },
            AdminOp::Remove => AdminCall::Edit,
            AdminOp::Other => AdminCall::Nothing,
        }),
        r is Nothing ==> forall|l: Option<usize>, e: Result<usize, Refusal>| #[trigger]
            admin(op, body_len as nat, parsed, l, e) is Refused,
{
    match op {
        AdminOp::List => if body_len == 0 {
            AdminCall::List
        } else {
            AdminCall::Nothing
        },
        AdminOp::Add | AdminOp::SetPassword => if parsed {
            AdminCall::Edit
        } else {
            AdminCall::Nothing
        },
        AdminOp::Remove => AdminCall::Edit,
        AdminOp::Other => AdminCall::Nothing,
    }
}

/// Serves an administrative request: `parsed` says whether its body is that of an account, and
/// `listed` and `edited` what [`admin_call`] asked for gave.
pub fn serve_admin(
    op: AdminOp,
    body: &[u8],
    parsed: bool,
    listed: Option<usize>,
    edited: Result<usize, Refusal>,
) -> (r: Admin)
    ensures
        r == admin(op, body@.len(), parsed, listed, edited),
{
    match op {
        AdminOp::List => if body.len() > 0 {
            Admin::Refused(Refused::Malformed)
        } else {
            match listed {
                Some(n) => Admin::Reply(n),
                None => Admin::Refused(Refused::ListTooLong),
            }
        },
        AdminOp::Add | AdminOp::SetPassword => if parsed {
            match edited {
                Ok(n) => Admin::Write(n),
                Err(e) => Admin::Refused(Refused::Edit(e)),
            }
        } else {
            Admin::Refused(Refused::Malformed)
        },
        AdminOp::Remove => match edited {
            Ok(n) => Admin::Write(n),
            Err(e) => Admin::Refused(Refused::Edit(e)),
        },
        AdminOp::Other => Admin::Refused(Refused::NotAdmin),
    }
}

/// A database is written only for an edit that was made, and a refused edit is replied with the
/// error of its reason.
pub proof fn law_only_a_made_edit_is_written(
    op: AdminOp,
    body_len: nat,
    parsed: bool,
    listed: Option<usize>,
    edited: Result<usize, Refusal>,
)
    ensures
        admin(op, body_len, parsed, listed, edited) is Write ==> edited is Ok && (op is Add
            || op is SetPassword || op is Remove),
        admin(op, body_len, parsed, listed, edited) is Reply ==> op is List && listed is Some,
{
}

/// An edit that was made is written: a removal whatever its body is read as, and an addition or a
/// change of password whose body is an account's. One that was refused is refused for that reason.
pub proof fn law_a_made_edit_is_written(
    body_len: nat,
    parsed: bool,
    listed: Option<usize>,
    edited: Result<usize, Refusal>,
)
    ensures
        match edited {
            Ok(n) => {
                &&& admin(AdminOp::Remove, body_len, parsed, listed, edited) == Admin::Write(n)
                &&& parsed ==> admin(AdminOp::Add, body_len, parsed, listed, edited)
                    == Admin::Write(n)
                &&& parsed ==> admin(AdminOp::SetPassword, body_len, parsed, listed, edited)
                    == Admin::Write(n)
            },
            Err(e) => {
                &&& admin(AdminOp::Remove, body_len, parsed, listed, edited) == Admin::Refused(
                    Refused::Edit(e),
                )
                &&& parsed ==> admin(AdminOp::Add, body_len, parsed, listed, edited)
                    == Admin::Refused(Refused::Edit(e))
                &&& parsed ==> admin(AdminOp::SetPassword, body_len, parsed, listed, edited)
                    == Admin::Refused(Refused::Edit(e))
            },
        },
{
}

/// A list is replied with whole, or refused as too long; a request to list has no body.
pub proof fn law_a_list_is_replied_with(
    body_len: nat,
    parsed: bool,
    listed: Option<usize>,
    edited: Result<usize, Refusal>,
)
    ensures
        ({
            let r = admin(AdminOp::List, body_len, parsed, listed, edited);
            &&& body_len == 0 ==> (listed matches Some(n) ==> r == Admin::Reply(n))
            &&& body_len == 0 ==> (listed is None ==> r == Admin::Refused(Refused::ListTooLong))
            &&& body_len > 0 ==> r == Admin::Refused(Refused::Malformed)
        }),
{
}

/// What is no administrative request, and an account's request that cannot be read, is refused before
/// anything is edited: the result is the same whatever an edit would have given.
pub proof fn law_a_bad_request_edits_nothing(
    op: AdminOp,
    body_len: nat,
    listed: Option<usize>,
    edited: Result<usize, Refusal>,
    other: Result<usize, Refusal>,
)
    ensures
        admin(AdminOp::Other, body_len, true, listed, edited) == Admin::Refused(Refused::NotAdmin),
        admin(AdminOp::Other, body_len, false, listed, edited) == Admin::Refused(Refused::NotAdmin),
        op is Add || op is SetPassword ==> admin(op, body_len, false, listed, edited)
            == Admin::Refused(Refused::Malformed),
        op is List || op is Other ==> admin(op, body_len, true, listed, edited) == admin(
            op,
            body_len,
            true,
            listed,
            other,
        ),
{
}

/// A refusal is answered with the error that tells the client what to do about it: correct the
/// request, choose another name, look for the account, or ask for less.
pub proof fn law_refusals_are_told_apart(r: Refused)
    ensures
        r.error() is InvalidArgument <==> r is Malformed || r == Refused::Edit(Refusal::BadName) || r
            == Refused::Edit(Refusal::BadPassword),
        r.error() is AlreadyExists <==> r == Refused::Edit(Refusal::Exists),
        r.error() is NotFound <==> r == Refused::Edit(Refusal::NoSuchAccount),
        r.error() is TooLarge <==> r is ListTooLong || r == Refused::Edit(Refusal::TooLarge),
        r.error() is Unsupported <==> r is NotAdmin,
{
}

/// Only an account that was found and whose own password verified is authenticated, under its own name
/// and with its own home.
pub proof fn law_only_a_verified_account_is_authenticated<'a>(
    found: Option<Account<'a>>,
    verified: bool,
)
    ensures
        outcome(found, verified) is Authenticated <==> found is Some && verified,
        outcome(found, verified) matches AuthOutcome::Authenticated { principal, home } ==> found
            matches Some(a) && principal == a.name && home == a.home,
{
}

/// There is a derivation for every name: a found one's own, and the decoy's for any other.
pub proof fn law_every_name_is_derived_for(found: bool)
    ensures
        check_for(found) is Account <==> found,
        check_for(found) is Decoy <==> !found,
{
}

/// A malformed request has no outcome, whoever it may have been for; a well-formed one has one, and
/// succeeds exactly for an account that was found and whose password verified.
pub proof fn law_a_malformed_request_has_no_outcome<'a>(
    parsed: bool,
    found: Option<Account<'a>>,
    verified: bool,
)
    ensures
        served(parsed, found, verified) is None <==> !parsed,
        served(parsed, found, verified) matches Some(AuthOutcome::Authenticated { principal, home })
            ==> parsed && verified && (found matches Some(a) && principal == a.name && home == a.home),
        parsed && verified && found is Some ==> served(parsed, found, verified)->0 is Authenticated,
        parsed && !(verified && found is Some) ==> served(parsed, found, verified)->0 is Denied,
{
}

/// A list is whole or none: one account that was not taken, whichever it is, leaves no reply, and where
/// every one was taken the reply is as long as was written.
pub proof fn law_a_list_is_whole_or_none(opened: bool, taken: Seq<bool>, len: usize, i: int)
    ensures
        0 <= i < taken.len() && !taken[i] ==> listing(opened, taken, len) is None,
        !opened ==> listing(opened, taken, len) is None,
        listing(opened, taken, len) matches Some(n) ==> n == len,
        opened && (forall|k: int| 0 <= k < taken.len() ==> #[trigger] taken[k]) ==> listing(
            opened,
            taken,
            len,
        ) is Some,
{
}

/// What is done for a request is what decides it, and nothing more: where nothing is done it is refused
/// whatever could have come of it, where the accounts are listed an edit does not matter, and where an
/// edit is made a list does not, and its success is written.
pub proof fn law_what_is_done_decides_the_request(
    op: AdminOp,
    body_len: nat,
    parsed: bool,
    l: Option<usize>,
    m: Option<usize>,
    e: Result<usize, Refusal>,
    f: Result<usize, Refusal>,
    n: usize,
)
    ensures
        call_for(op, body_len, parsed) is Nothing ==> admin(op, body_len, parsed, l, e) is Refused
            && admin(op, body_len, parsed, l, e) == admin(op, body_len, parsed, m, f),
        call_for(op, body_len, parsed) is List ==> admin(op, body_len, parsed, l, e) == admin(
            op,
            body_len,
            parsed,
            l,
            f,
        ) && admin(op, body_len, parsed, Some(n), e) == Admin::Reply(n),
        call_for(op, body_len, parsed) is Edit ==> admin(op, body_len, parsed, l, e) == admin(
            op,
            body_len,
            parsed,
            m,
            e,
        ) && admin(op, body_len, parsed, l, Ok(n)) == Admin::Write(n),
{
}

} // verus!
