//! The authentication service's sessions: the table of their channels, what is waited for, and
//! what each message is answered.

use vstd::prelude::*;

use crate::wire;

verus! {

/// The sessions of the service: the channel of each, and zero where a slot is free.
pub struct Sessions {
    slots: Vec<u64>,
}

/// The slots with every `ch` freed.
pub open spec fn freed(s: Seq<u64>, ch: u64) -> Seq<u64> {
    s.map_values(|x: u64| if x == ch { 0u64 } else { x })
}

/// The channels in use, in the order of their slots.
pub open spec fn in_use(s: Seq<u64>) -> Seq<u64>
    decreases s.len(),
{
    if s.len() == 0 {
        Seq::empty()
    } else if s.last() != 0 {
        in_use(s.drop_last()).push(s.last())
    } else {
        in_use(s.drop_last())
    }
}

impl View for Sessions {
    type V = Seq<u64>;

    closed spec fn view(&self) -> Seq<u64> {
        self.slots@
    }
}

impl Sessions {
    /// A table of free slots.
    pub fn new(capacity: usize) -> (r: Self)
        ensures
            r@ == Seq::new(capacity as nat, |i: int| 0u64),
    {
        let mut slots: Vec<u64> = Vec::new();
        let mut i: usize = 0;
        while i < capacity
            invariant
                i <= capacity,
                slots@ == Seq::new(i as nat, |k: int| 0u64),
            decreases capacity - i,
        {
            slots.push(0);
            i = i + 1;
            assert(slots@ =~= Seq::new(i as nat, |k: int| 0u64));
        }
        Sessions { slots }
    }

    /// The first free slot.
    pub fn free_slot(&self) -> (r: Option<usize>)
        ensures
            match r {
                Some(i) => i < self@.len() && self@[i as int] == 0 && forall|k: int|
                    0 <= k < i ==> self@[k] != 0,
                None => forall|k: int| 0 <= k < self@.len() ==> self@[k] != 0,
            },
    {
        let mut i: usize = 0;
        while i < self.slots.len()
            invariant
                i <= self.slots.len(),
                forall|k: int| 0 <= k < i ==> self.slots@[k] != 0,
            decreases self.slots.len() - i,
        {
            if self.slots[i] == 0 {
                return Some(i);
            }
            i = i + 1;
        }
        None
    }

    /// Gives a slot to a channel. This comes before the client is told of the session, so that no
    /// message can arrive on a channel that is not waited for.
    pub fn bind(&mut self, slot: usize, ch: u64)
        requires
            slot < old(self)@.len(),
        ensures
            final(self)@ == old(self)@.update(slot as int, ch),
    {
        self.slots.set(slot, ch);
    }

    /// Takes a slot back, where the client could not be told.
    pub fn unbind(&mut self, slot: usize)
        requires
            slot < old(self)@.len(),
        ensures
            final(self)@ == old(self)@.update(slot as int, 0),
    {
        self.slots.set(slot, 0);
    }

    /// Frees every slot of a channel that has ended.
    pub fn free(&mut self, ch: u64)
        ensures
            final(self)@ == freed(old(self)@, ch),
    {
        let ghost all = self.slots@;
        let mut i: usize = 0;
        while i < self.slots.len()
            invariant
                i <= self.slots.len(),
                self.slots@.len() == all.len(),
                forall|k: int|
                    0 <= k < i ==> self.slots@[k] == (if all[k] == ch {
                        0
                    } else {
                        all[k]
                    }),
                forall|k: int| i <= k < all.len() ==> self.slots@[k] == all[k],
            decreases self.slots.len() - i,
        {
            if self.slots[i] == ch {
                self.slots.set(i, 0);
            }
            i = i + 1;
        }
        assert(self.slots@ =~= freed(all, ch));
    }

    /// What is waited for: the service's own end, and each session's channel.
    pub fn wait_set(&self, serve_end: u64) -> (r: Vec<u64>)
        ensures
            r@ == seq![serve_end] + in_use(self@),
    {
        let mut out: Vec<u64> = Vec::new();
        out.push(serve_end);
        let ghost all = self.slots@;
        let mut i: usize = 0;
        assert(out@ =~= seq![serve_end] + in_use(all.take(0)));
        while i < self.slots.len()
            invariant
                i <= self.slots.len(),
                all == self.slots@,
                out@ == seq![serve_end] + in_use(all.take(i as int)),
            decreases self.slots.len() - i,
        {
            assert(all.take(i + 1).drop_last() =~= all.take(i as int));
            assert(all.take(i + 1).last() == all[i as int]);
            if self.slots[i] != 0 {
                out.push(self.slots[i]);
            }
            i = i + 1;
            assert(out@ =~= seq![serve_end] + in_use(all.take(i as int)));
        }
        assert(all.take(i as int) =~= all);
        out
    }
}

proof fn lemma_in_use(s: Seq<u64>, ch: u64)
    ensures
        in_use(s).len() <= s.len(),
        ch != 0 ==> (in_use(s).contains(ch) <==> s.contains(ch)),
        !in_use(s).contains(0),
    decreases s.len(),
{
    if s.len() > 0 {
        let init = s.drop_last();
        lemma_in_use(init, ch);
        let front = in_use(init);
        if ch != 0 {
            if s.contains(ch) {
                let i = choose|i: int| 0 <= i < s.len() && s[i] == ch;
                if i < init.len() {
                    assert(init[i] == ch);
                    let k = choose|k: int| 0 <= k < front.len() && front[k] == ch;
                    assert(in_use(s)[k] == ch);
                } else {
                    assert(in_use(s)[front.len() as int] == ch);
                }
            }
            if in_use(s).contains(ch) {
                let k = choose|k: int| 0 <= k < in_use(s).len() && in_use(s)[k] == ch;
                if k < front.len() {
                    assert(front[k] == ch);
                    let i = choose|i: int| 0 <= i < init.len() && init[i] == ch;
                    assert(s[i] == ch);
                } else {
                    assert(s[s.len() - 1] == ch);
                }
            }
        }
        assert forall|k: int| 0 <= k < in_use(s).len() implies in_use(s)[k] != 0 by {
            if k < front.len() {
                assert(front[k] == in_use(s)[k]);
            }
        }
    }
}

/// A session is waited for exactly while it has a slot: from when it is bound until it is freed,
/// and freeing one leaves the others.
pub proof fn law_a_session_is_waited_for_while_it_is_bound(
    s: Seq<u64>,
    slot: int,
    ch: u64,
    other: u64,
)
    requires
        0 <= slot < s.len(),
        ch != 0,
        other != 0,
        other != ch,
    ensures
        in_use(s.update(slot, ch)).contains(ch),
        !in_use(freed(s, ch)).contains(ch),
        in_use(s).contains(other) <==> in_use(freed(s, ch)).contains(other),
{
    lemma_in_use(s.update(slot, ch), ch);
    assert(s.update(slot, ch)[slot] == ch);
    let f = freed(s, ch);
    lemma_in_use(f, ch);
    lemma_in_use(f, other);
    lemma_in_use(s, other);
    assert forall|i: int| 0 <= i < f.len() implies f[i] != ch by {}
    if s.contains(other) {
        let i = choose|i: int| 0 <= i < s.len() && s[i] == other;
        assert(f[i] == other);
    }
    if f.contains(other) {
        let i = choose|i: int| 0 <= i < f.len() && f[i] == other;
        assert(s[i] == other);
    }
}

/// The wait set never outgrows the table and the service's own end.
pub proof fn law_the_wait_set_is_bounded(s: Seq<u64>, serve_end: u64)
    ensures
        (seq![serve_end] + in_use(s)).len() <= s.len() + 1,
{
    lemma_in_use(s, 0);
}

/// Where the payload of a message begins.
pub const PAYLOAD_OFF: usize = 24;

/// The length of a message.
pub const MSG_LEN: usize = 4096;

/// The length of one result of a wait.
pub const RESULT_LEN: usize = 24;

/// The payload's length as the header says it, as far as the message reaches.
pub open spec fn payload_length(msg: Seq<u8>) -> int {
    let n = wire::le(msg.subrange(4, 8)) as int;
    if n < MSG_LEN - PAYLOAD_OFF {
        n
    } else {
        MSG_LEN - PAYLOAD_OFF
    }
}

/// The payload's length.
pub fn payload_len(msg: &[u8]) -> (r: usize)
    requires
        msg.len() == MSG_LEN,
    ensures
        r == payload_length(msg@),
        PAYLOAD_OFF + r <= MSG_LEN,
{
    let n: u32 = match wire::u32_at(msg, 4) {
        Some(n) => n,
        None => 0,
    };
    if (n as u64) < 4072 {
        n as usize
    } else {
        MSG_LEN - PAYLOAD_OFF
    }
}

/// Writes the payload's length and the number of handles into a message's header.
pub fn stamp_header(msg: &mut Vec<u8>, payload: u32, handles: u8)
    requires
        old(msg).len() == MSG_LEN,
    ensures
        final(msg)@.len() == MSG_LEN,
        final(msg)@.subrange(4, 8) == wire::le_bytes(payload as nat, 4),
        final(msg)@[8] == handles,
        forall|i: int| 0 <= i < MSG_LEN && !(4 <= i <= 8) ==> final(msg)@[i] == old(msg)@[i],
{
    let ghost was = msg@;
    let b = wire::write_le(payload as u64, 4);
    proof {
        assert(wire::byte_range(4) == 0x1_0000_0000) by {
            reveal_with_fuel(wire::byte_range, 5);
        }
        wire::law_field_reads_back(payload as nat, 4);
    }
    msg.set(4, b[0]);
    msg.set(5, b[1]);
    msg.set(6, b[2]);
    msg.set(7, b[3]);
    msg.set(8, handles);
    assert(msg@.subrange(4, 8) =~= b@);
}

/// A stamped payload length reads back, as far as a message reaches.
pub proof fn law_stamped_length_reads_back(msg: Seq<u8>, payload: u32)
    requires
        msg.len() == MSG_LEN,
        msg.subrange(4, 8) == wire::le_bytes(payload as nat, 4),
        payload <= MSG_LEN - PAYLOAD_OFF,
    ensures
        payload_length(msg) == payload,
{
    assert(wire::byte_range(4) == 0x1_0000_0000) by {
        reveal_with_fuel(wire::byte_range, 5);
    }
    wire::law_field_reads_back(payload as nat, 4);
}

/// The handle of each of the first `n` results of a wait.
pub open spec fn handles(results: Seq<u8>, n: nat) -> Seq<u64> {
    Seq::new(n, |j: int| wire::le(results.subrange(j * 24, j * 24 + 8)) as u64)
}

/// The handles that a wait found signalled.
pub fn signalled(results: &[u8], n: usize) -> (r: Vec<u64>)
    requires
        n * RESULT_LEN <= results.len(),
    ensures
        r@ == handles(results@, n as nat),
{
    let mut out: Vec<u64> = Vec::new();
    let mut j: usize = 0;
    while j < n
        invariant
            j <= n,
            n * RESULT_LEN <= results.len(),
            out@ == handles(results@, j as nat),
        decreases n - j,
    {
        assert(j * 24 + 24 <= results@.len()) by (nonlinear_arith)
            requires
                j + 1 <= n,
                n * 24 <= results@.len(),
        ;
        let h: u64 = match wire::u64_at(results, j * 24) {
            Some(h) => h,
            None => 0,
        };
        out.push(h);
        j = j + 1;
        assert(out@ =~= handles(results@, j as nat));
    }
    out
}

/// The handle that a lookup gave, by how its wait ended, its status and the handle there.
pub open spec fn given(waited: int, status: int, handle: int) -> int {
    if waited == 1 && status == 0 {
        handle
    } else {
        0
    }
}

/// The handle that an awaited lookup gave: none where the wait did not end as it should, or its
/// status is not zero.
pub fn lookup_result(waited: i64, results: &[u8]) -> (r: u64)
    requires
        results.len() >= RESULT_LEN,
    ensures
        r == given(
            waited as int,
            wire::le(results@.subrange(8, 12)) as int,
            wire::le(results@.subrange(16, 24)) as int,
        ),
        r == (if waited == 1 && wire::le(results@.subrange(8, 12)) == 0 {
            wire::le(results@.subrange(16, 24)) as int
        } else {
            0
        }),
{
    let status: u32 = match wire::u32_at(results, 8) {
        Some(s) => s,
        None => 0,
    };
    let handle: u64 = match wire::u64_at(results, 16) {
        Some(h) => h,
        None => 0,
    };
    if waited != 1 || status != 0 {
        0
    } else {
        handle
    }
}

/// The largest account database that is loaded.
pub const DB_MAX: u64 = 4096;

/// A database that was looked at can be loaded.
pub open spec fn loads(stat: int, size: int) -> bool {
    stat >= 0 && 0 < size <= DB_MAX
}

/// Whether a database that was looked at can be loaded: it was seen, is not empty, and fits.
pub fn db_fits(stat: i64, size: u64) -> (r: bool)
    ensures
        r == loads(stat as int, size as int),
        r == (stat >= 0 && 0 < size <= DB_MAX),
{
    stat >= 0 && size != 0 && size <= DB_MAX
}

/// A message on the service's own end, as it was decoded.
#[derive(Debug, Clone, Copy, PartialEq, Eq, Structural)]
pub enum Resolve {
    /// It could not be decoded.
    Undecodable,
    /// A request to resolve a name, and the length of what is left of the name, where it parses.
    Request { op: u16, request_id: u64, suffix: Option<usize> },
    /// Another operation.
    Other { op: u16, request_id: u64 },
}

/// What such a message is answered.
#[derive(Debug, Clone, Copy, PartialEq, Eq, Structural)]
pub enum ResolveAnswer {
    /// A session is opened.
    Open { request_id: u64 },
    /// The name is not found.
    NotFound { op: u16, request_id: u64 },
}

/// What a message on the service's own end is answered.
pub open spec fn resolved(m: Resolve) -> ResolveAnswer {
    match m {
        Resolve::Undecodable => ResolveAnswer::NotFound { op: 0, request_id: 0 },
        Resolve::Request { op, request_id, suffix } => if suffix == Some(0usize) {
            ResolveAnswer::Open { request_id }
        } else {
            ResolveAnswer::NotFound { op, request_id }
        },
        Resolve::Other { op, request_id } => ResolveAnswer::NotFound { op, request_id },
    }
}

/// What a message on the service's own end is answered: a session for its own name, and that
/// nothing is found for anything else.
pub fn answer_resolve(m: Resolve) -> (r: ResolveAnswer)
    ensures
        r == resolved(m),
        r == (match m {
            Resolve::Undecodable => ResolveAnswer::NotFound { op: 0, request_id: 0 },
            Resolve::Request { op, request_id, suffix } => if suffix == Some(0usize) {
                ResolveAnswer::Open { request_id }
            } else {
                ResolveAnswer::NotFound { op, request_id }
            },
            Resolve::Other { op, request_id } => ResolveAnswer::NotFound { op, request_id },
        }),
{
    match m {
        Resolve::Undecodable => ResolveAnswer::NotFound { op: 0, request_id: 0 },
        Resolve::Request { op, request_id, suffix } => match suffix {
            Some(0) => ResolveAnswer::Open { request_id },
            _ => ResolveAnswer::NotFound { op, request_id },
        },
        Resolve::Other { op, request_id } => ResolveAnswer::NotFound { op, request_id },
    }
}

/// A message on a session's channel, as it was decoded and served.
#[derive(Debug, Clone, Copy, PartialEq, Eq, Structural)]
pub enum Incoming {
    /// It could not be decoded.
    Undecodable,
    /// A request to authenticate, and the length of the reply that serving it built, if it was
    /// well formed.
    Authenticate { request_id: u64, built: Option<usize> },
    /// Another operation.
    Other { request_id: u64 },
}

/// A reply: whom it answers, how long its body is, and whether it is flagged as an error.
#[derive(Debug, Clone, Copy, PartialEq, Eq, Structural)]
pub struct Answer {
    pub request_id: u64,
    pub len: usize,
    pub error: bool,
}

/// What a message is answered, where a denial is `denied` bytes long.
pub open spec fn answer(m: Incoming, denied: usize) -> Answer {
    match m {
        Incoming::Undecodable => Answer { request_id: 0, len: 0, error: true },
        Incoming::Authenticate { request_id, built } => match built {
            Some(n) => Answer { request_id, len: n, error: false },
            None => Answer { request_id, len: denied, error: true },
        },
        Incoming::Other { request_id } => Answer { request_id, len: denied, error: true },
    }
}

/// What a message is answered, where a denial is `denied` bytes long.
pub fn answer_session(m: Incoming, denied: usize) -> (r: Answer)
    ensures
        r == answer(m, denied),
{
    match m {
        Incoming::Undecodable => Answer { request_id: 0, len: 0, error: true },
        Incoming::Authenticate { request_id, built } => match built {
            Some(n) => Answer { request_id, len: n, error: false },
            None => Answer { request_id, len: denied, error: true },
        },
        Incoming::Other { request_id } => Answer { request_id, len: denied, error: true },
    }
}

impl Answer {
    /// Whether the reply is sent: one without a body is not.
    pub fn is_sent(&self) -> (r: bool)
        ensures
            r == (self.len > 0),
    {
        self.len > 0
    }
}

/// Nothing but a well-formed request to authenticate is answered without the error flag, and every
/// answer goes to the request it answers.
pub proof fn law_refused_requests_are_denied(m: Incoming, denied: usize)
    ensures
        !answer(m, denied).error <==> (m matches Incoming::Authenticate { built: Some(_), .. }),
        m matches Incoming::Authenticate { request_id, built: None } ==> answer(m, denied) == (
        Answer { request_id, len: denied, error: true }),
        m matches Incoming::Other { request_id } ==> answer(m, denied) == (Answer {
            request_id,
            len: denied,
            error: true,
        }),
{
}

/// The channels that are waited for are those in the slots, and no empty slot is one.
pub proof fn law_every_bound_channel_is_waited_for(s: Seq<u64>, ch: u64)
    ensures
        in_use(s).contains(ch) <==> ch != 0 && s.contains(ch),
        in_use(s).len() <= s.len(),
    decreases s.len(),
{
    if s.len() > 0 {
        let init = s.drop_last();
        let front = in_use(init);
        law_every_bound_channel_is_waited_for(init, ch);
        assert(s[s.len() - 1] == s.last());
        if init.contains(ch) {
            let k = init.index_of(ch);
            assert(s[k] == ch);
        }
        if s.contains(ch) && s.last() != ch {
            let k = s.index_of(ch);
            assert(init[k] == ch);
        }
        if s.last() != 0 {
            let all = front.push(s.last());
            assert(all[front.len() as int] == s.last());
            if front.contains(ch) {
                let k = front.index_of(ch);
                assert(all[k] == ch);
            }
            if all.contains(ch) && ch != s.last() {
                let k = all.index_of(ch);
                assert(front[k] == ch);
            }
        }
    }
}

/// Freeing a channel empties its slots and touches no other.
pub proof fn law_freeing_touches_no_other_slot(s: Seq<u64>, ch: u64, i: int)
    requires
        0 <= i < s.len(),
    ensures
        freed(s, ch).len() == s.len(),
        s[i] == ch ==> freed(s, ch)[i] == 0,
        s[i] != ch ==> freed(s, ch)[i] == s[i],
{
}

/// A wait's result holds its handle in the first eight of its twenty-four bytes.
pub proof fn law_a_handle_begins_its_result(results: Seq<u8>, n: nat, j: int, handle: u64)
    requires
        0 <= j < n,
        24 * n <= results.len(),
        results.subrange(24 * j, 24 * j + 8) == wire::le_bytes(handle as nat, 8),
    ensures
        handles(results, n).len() == n,
        handles(results, n)[j] == handle,
{
    assert(wire::byte_range(8) == 0x1_0000_0000_0000_0000) by {
        reveal_with_fuel(wire::byte_range, 9);
    }
    wire::law_field_reads_back(handle as nat, 8);
    assert(j * 24 == 24 * j);
}

/// A payload is never longer than what a message has room for behind its header.
pub proof fn law_a_payload_stays_in_its_message(msg: Seq<u8>)
    requires
        msg.len() == 4096,
    ensures
        0 <= payload_length(msg) <= 4096 - 24,
        payload_length(msg) == wire::le(msg.subrange(4, 8)) || (payload_length(msg) == 4096 - 24
            && wire::le(msg.subrange(4, 8)) > 4096 - 24),
{
}

/// A session is opened exactly for a request for the service's own name, with nothing left of it, and
/// every decoded message is answered under its own operation and identifier.
pub proof fn law_only_the_own_name_opens_a_session(m: Resolve)
    ensures
        resolved(m) is Open <==> (m matches Resolve::Request { suffix: Some(n), .. } && n == 0),
        m matches Resolve::Request { op, request_id, suffix } ==> (resolved(m) == (
        ResolveAnswer::Open { request_id }) || resolved(m) == (ResolveAnswer::NotFound {
            op,
            request_id,
        })),
        m matches Resolve::Other { op, request_id } ==> resolved(m) == (ResolveAnswer::NotFound {
            op,
            request_id,
        }),
{
}

/// A database is loaded from one byte up to a page, where it could be looked at.
pub proof fn law_a_database_is_a_page_at_most(size: int)
    ensures
        loads(0, size) <==> 1 <= size <= 4096,
        forall|stat: int| stat < 0 ==> !#[trigger] loads(stat, size),
{
}

/// A lookup gives its handle exactly where one result came and it is no error.
pub proof fn law_a_failed_lookup_gives_no_handle(waited: int, status: int, handle: int)
    ensures
        waited == 1 && status == 0 ==> given(waited, status, handle) == handle,
        waited != 1 || status != 0 ==> given(waited, status, handle) == 0,
{
}

} // verus!
