//! Watching a guest's output: what has been seen of it, what is still to come, and what was typed
//! at it since the last thing seen.

use vstd::prelude::*;

use crate::text;
use crate::transcript;
use crate::wire;

verus! {

/// How a wait for what a guest prints stands.
#[derive(Debug, PartialEq, Eq)]
pub enum Wait {
    /// It is refused: the echo of this line that was typed would satisfy it.
    Echoed(String),
    /// What was waited for has come, and is consumed.
    Seen,
    /// It has not come yet.
    Wait,
    /// It has not come in time.
    TimedOut,
}

/// What a guest has printed, how much of it has been consumed, and what was typed since.
pub struct Watch {
    out: Vec<char>,
    cursor: usize,
    sent: Vec<String>,
}

/// What a wait comes to, without what it tells.
pub enum Outcome {
    Echoed,
    Seen,
    TimedOut,
    Wait,
}

/// What a wait came to.
pub open spec fn came_to(r: Wait) -> Outcome {
    match r {
        Wait::Echoed(_) => Outcome::Echoed,
        Wait::Seen => Outcome::Seen,
        Wait::TimedOut => Outcome::TimedOut,
        Wait::Wait => Outcome::Wait,
    }
}

/// What a wait comes to: by whether the echo of what was typed would satisfy it, whether everything
/// came, and whether it is late.
pub open spec fn waited(echoed: bool, came: bool, late: bool) -> Outcome {
    if echoed {
        Outcome::Echoed
    } else if came {
        Outcome::Seen
    } else if late {
        Outcome::TimedOut
    } else {
        Outcome::Wait
    }
}

/// The last `n` characters, or all where there are no more.
pub open spec fn ending(s: Seq<char>, n: int) -> Seq<char> {
    if s.len() > n {
        s.skip(s.len() - n)
    } else {
        s
    }
}

impl Watch {
    /// Everything the guest has printed.
    pub closed spec fn printed(&self) -> Seq<char> {
        self.out@
    }

    /// How much of it has been consumed.
    pub closed spec fn consumed(&self) -> nat {
        self.cursor as nat
    }

    /// The lines typed since the last match.
    pub closed spec fn typed(&self) -> Seq<Seq<char>> {
        text::strs(self.sent@)
    }

    /// No more is consumed than was printed.
    pub open spec fn wf(&self) -> bool {
        self.consumed() <= self.printed().len()
    }

    /// Where `pat` stands first in what has not been consumed.
    pub open spec fn next(&self, pat: Seq<char>) -> Option<int> {
        text::find_from(self.printed(), pat, self.consumed() as int)
    }

    /// Nothing printed, nothing typed.
    pub fn new() -> (r: Self)
        ensures
            r.wf(),
            r.printed() == Seq::<char>::empty(),
            r.consumed() == 0,
            r.typed() == Seq::<Seq<char>>::empty(),
    {
        let r = Watch { out: Vec::new(), cursor: 0, sent: Vec::new() };
        assert(r.typed() =~= Seq::empty());
        r
    }

    /// The guest printed these bytes.
    pub fn feed(&mut self, bytes: &[u8])
        requires
            old(self).wf(),
        ensures
            final(self).wf(),
            final(self).printed() == old(self).printed() + wire::decoded(bytes@),
            final(self).consumed() == old(self).consumed(),
            final(self).typed() == old(self).typed(),
    {
        let s = wire::lossy(bytes);
        self.feed_text(s.as_str());
    }

    /// The guest printed `s`.
    pub fn feed_text(&mut self, s: &str)
        requires
            old(self).wf(),
        ensures
            final(self).wf(),
            final(self).printed() == old(self).printed() + s@,
            final(self).consumed() == old(self).consumed(),
            final(self).typed() == old(self).typed(),
    {
        let c = text::chars_of(s);
        text::extend(&mut self.out, c.as_slice());
    }

    /// `line` was typed at the guest.
    pub fn type_line(&mut self, line: &str)
        requires
            old(self).wf(),
        ensures
            final(self).wf(),
            final(self).printed() == old(self).printed(),
            final(self).consumed() == old(self).consumed(),
            final(self).typed() == old(self).typed().push(line@),
    {
        let s = String::from_str(line);
        proof {
            text::lemma_strs_push(self.sent@, s);
        }
        self.sent.push(s);
    }

    /// The first line typed since the last match that `pat` would match by its echo alone.
    pub fn echo_of(&self, pat: &str) -> (r: Option<String>)
        ensures
            match r {
                Some(s) => transcript::echoed(self.typed(), pat@) is Some && s@
                    == self.typed()[transcript::echoed(self.typed(), pat@)->0],
                None => transcript::echoed(self.typed(), pat@) is None,
            },
    {
        match transcript::echo_source(self.sent.as_slice(), pat) {
            Some(s) => {
                let c = text::chars_of(s);
                let t = text::string_of(c.as_slice());
                proof {
                    let i = transcript::echoed(self.typed(), pat@)->0;
                    assert(text::strs(self.sent@)[i] == self.sent@[i]@);
                }
                Some(t)
            },
            None => None,
        }
    }

    /// Whether `pat` has come; what stands up to its end is then consumed, and what was typed
    /// before it can be matched no more.
    pub fn see(&mut self, pat: &str) -> (r: bool)
        requires
            old(self).wf(),
        ensures
            final(self).wf(),
            final(self).printed() == old(self).printed(),
            match old(self).next(pat@) {
                Some(i) => r && final(self).consumed() == i + pat@.len() && final(self).typed()
                    == Seq::<Seq<char>>::empty(),
                None => !r && final(self).consumed() == old(self).consumed() && final(self).typed()
                    == old(self).typed(),
            },
    {
        let p = text::chars_of(pat);
        match text::position_from(self.out.as_slice(), p.as_slice(), self.cursor) {
            Some(i) => {
                self.cursor = i + p.len();
                self.sent = Vec::new();
                assert(self.typed() =~= Seq::empty());
                true
            },
            None => false,
        }
    }

    /// Whether all of `pats` have come, in whatever order; what stands up to the end of the last
    /// of them is then consumed.
    pub fn see_all(&mut self, pats: &Vec<String>) -> (r: bool)
        requires
            old(self).wf(),
        ensures
            final(self).wf(),
            final(self).printed() == old(self).printed(),
            r == forall|k: int| 0 <= k < pats@.len() ==> old(self).next(#[trigger] pats@[k]@) is Some,
            r ==> final(self).typed() == Seq::<Seq<char>>::empty() && final(self).consumed()
                == last_end(*old(self), text::strs(pats@)),
            !r ==> final(self).consumed() == old(self).consumed() && final(self).typed() == old(
                self,
            ).typed(),
    {
        let ghost all = text::strs(pats@);
        let mut end: usize = self.cursor;
        let mut k: usize = 0;
        assert(all.take(0) =~= Seq::empty());
        while k < pats.len()
            invariant
                k <= pats.len(),
                all == text::strs(pats@),
                *self == *old(self),
                self.wf(),
                self.cursor <= end <= self.out@.len(),
                end == last_end(*self, all.take(k as int)),
                forall|j: int| 0 <= j < k ==> self.next(#[trigger] pats@[j]@) is Some,
            decreases pats.len() - k,
        {
            assert(all.take(k + 1).drop_last() =~= all.take(k as int));
            assert(all.take(k + 1).last() == pats@[k as int]@);
            let p = text::chars_of(pats[k].as_str());
            match text::position_from(self.out.as_slice(), p.as_slice(), self.cursor) {
                Some(i) => {
                    let e: usize = i + p.len();
                    if e > end {
                        end = e;
                    }
                },
                None => {
                    assert(self.next(pats@[k as int]@) is None);
                    return false;
                },
            }
            k = k + 1;
        }
        assert(all.take(k as int) =~= all);
        self.cursor = end;
        self.sent = Vec::new();
        assert(self.typed() =~= Seq::empty());
        true
    }

    /// The first of `pats` that the echo of what was typed would satisfy.
    pub open spec fn first_echo(&self, pats: Seq<Seq<char>>) -> Option<int>
        decreases pats.len(),
    {
        if pats.len() == 0 {
            None
        } else {
            match self.first_echo(pats.drop_last()) {
                Some(k) => Some(k),
                None => if transcript::echoed(self.typed(), pats.last()) is Some {
                    Some(pats.len() - 1)
                } else {
                    None
                },
            }
        }
    }

    /// Looks whether a wait for all of `pats`, in whatever order, is over; `late` says that it has
    /// taken too long. A wait that an echo would satisfy is refused, whatever was printed.
    pub fn expect_all(&mut self, pats: &Vec<String>, late: bool) -> (r: Wait)
        requires
            old(self).wf(),
        ensures
            came_to(r) == waited(
                old(self).first_echo(text::strs(pats@)) is Some,
                forall|k: int|
                    0 <= k < pats@.len() ==> old(self).next(#[trigger] text::strs(pats@)[k]) is Some,
                late,
            ),
            final(self).wf(),
            final(self).printed() == old(self).printed(),
            ({
                let all = text::strs(pats@);
                let came = forall|k: int| 0 <= k < all.len() ==> old(self).next(#[trigger] all[k]) is Some;
                match old(self).first_echo(all) {
                    Some(k) => r is Echoed && (r->Echoed_0)@ == old(self).typed()[transcript::echoed(
                        old(self).typed(),
                        all[k],
                    )->0],
                    None => if came {
                        r is Seen
                    } else if late {
                        r is TimedOut
                    } else {
                        r is Wait
                    },
                }
            }),
            r is Seen ==> final(self).typed() == Seq::<Seq<char>>::empty() && final(self).consumed()
                == last_end(*old(self), text::strs(pats@)),
            r !is Seen ==> final(self).consumed() == old(self).consumed() && final(self).typed()
                == old(self).typed(),
    {
        let ghost all = text::strs(pats@);
        let mut k: usize = 0;
        assert(all.take(0) =~= Seq::empty());
        while k < pats.len()
            invariant
                k <= pats.len(),
                all == text::strs(pats@),
                *self == *old(self),
                self.wf(),
                self.first_echo(all.take(k as int)) is None,
            decreases pats.len() - k,
        {
            assert(all.take(k + 1).drop_last() =~= all.take(k as int));
            assert(all.take(k + 1).last() == pats@[k as int]@);
            match self.echo_of(pats[k].as_str()) {
                Some(s) => {
                    proof {
                        lemma_first_echo(*self, all, k as int + 1);
                    }
                    return Wait::Echoed(s);
                },
                None => {},
            }
            k = k + 1;
        }
        assert(all.take(k as int) =~= all);
        assert(forall|j: int| 0 <= j < all.len() ==> #[trigger] all[j] == pats@[j]@);
        if self.see_all(pats) {
            assert forall|j: int| 0 <= j < all.len() implies old(self).next(#[trigger] all[j]) is Some by {
                assert(old(self).next(pats@[j]@) is Some);
            }
            Wait::Seen
        } else {
            proof {
                let j = choose|j: int|
                    0 <= j < pats@.len() && old(self).next(#[trigger] pats@[j]@) is None;
                assert(old(self).next(all[j]) is None);
            }
            if late {
                Wait::TimedOut
            } else {
                Wait::Wait
            }
        }
    }

    /// Looks whether a wait for `pat` is over; `late` says that it has taken too long. A wait that an
    /// echo would satisfy is refused, whatever was printed.
    pub fn expect(&mut self, pat: &str, late: bool) -> (r: Wait)
        requires
            old(self).wf(),
        ensures
            came_to(r) == waited(
                transcript::echoed(old(self).typed(), pat@) is Some,
                old(self).next(pat@) is Some,
                late,
            ),
            final(self).wf(),
            final(self).printed() == old(self).printed(),
            match transcript::echoed(old(self).typed(), pat@) {
                Some(i) => r is Echoed && (r->Echoed_0)@ == old(self).typed()[i],
                None => if old(self).next(pat@) is Some {
                    r is Seen
                } else if late {
                    r is TimedOut
                } else {
                    r is Wait
                },
            },
            r is Seen ==> final(self).consumed() == old(self).next(pat@)->0 + pat@.len()
                && final(self).typed() == Seq::<Seq<char>>::empty(),
            r !is Seen ==> final(self).consumed() == old(self).consumed() && final(self).typed()
                == old(self).typed(),
    {
        match self.echo_of(pat) {
            Some(s) => {
                return Wait::Echoed(s);
            },
            None => {},
        }
        if self.see(pat) {
            Wait::Seen
        } else if late {
            Wait::TimedOut
        } else {
            Wait::Wait
        }
    }

    /// The places among `pats` of those that have not come.
    pub fn missing(&self, pats: &Vec<String>) -> (r: Vec<usize>)
        requires
            self.wf(),
        ensures
            forall|k: int|
                0 <= k < pats@.len() ==> (r@.contains(k as usize) <==> self.next(
                    #[trigger] pats@[k]@,
                ) is None),
            forall|i: int| 0 <= i < r@.len() ==> #[trigger] r@[i] < pats@.len(),
            forall|i: int, j: int| 0 <= i < j < r@.len() ==> r@[i] < r@[j],
    {
        let mut out: Vec<usize> = Vec::new();
        let mut k: usize = 0;
        while k < pats.len()
            invariant
                k <= pats.len(),
                self.wf(),
                forall|j: int|
                    0 <= j < k ==> (out@.contains(j as usize) <==> self.next(
                        #[trigger] pats@[j]@,
                    ) is None),
                forall|i: int| 0 <= i < out@.len() ==> #[trigger] out@[i] < k,
                forall|i: int, j: int| 0 <= i < j < out@.len() ==> out@[i] < out@[j],
            decreases pats.len() - k,
        {
            let p = text::chars_of(pats[k].as_str());
            let ghost was = out@;
            if text::position_from(self.out.as_slice(), p.as_slice(), self.cursor).is_none() {
                out.push(k);
                assert(out@[was.len() as int] == k);
                assert forall|j: int| 0 <= j < k implies (out@.contains(j as usize) <==> self.next(
                    #[trigger] pats@[j]@,
                ) is None) by {
                    if was.contains(j as usize) {
                        let i = choose|i: int| 0 <= i < was.len() && was[i] == j as usize;
                        assert(out@[i] == j as usize);
                    }
                    if out@.contains(j as usize) {
                        let i = choose|i: int| 0 <= i < out@.len() && out@[i] == j as usize;
                        assert(i < was.len());
                        assert(was[i] == j as usize);
                    }
                }
            } else {
                assert(!out@.contains(k));
            }
            k = k + 1;
        }
        out
    }

    /// What follows the last match on its line, trimmed; `None` until the line has ended.
    pub fn rest_of_line(&self) -> (r: Option<String>)
        requires
            self.wf(),
        ensures
            match r {
                Some(s) => line_rest(self.printed().skip(self.consumed() as int)) == Some(s@),
                None => line_rest(self.printed().skip(self.consumed() as int)) is None,
            },
    {
        let tail = text::skip(self.out.as_slice(), self.cursor);
        match text::cut(tail, "\n") {
            Some((line, _)) => Some(text::string_of(text::trimmed(line))),
            None => None,
        }
    }

    /// Consumes everything that has been printed.
    pub fn skip_to_end(&mut self)
        requires
            old(self).wf(),
        ensures
            final(self).wf(),
            final(self).printed() == old(self).printed(),
            final(self).consumed() == old(self).printed().len(),
            final(self).typed() == old(self).typed(),
    {
        self.cursor = self.out.len();
    }

    /// Whether the guest has printed nothing but white space.
    pub fn is_silent(&self) -> (r: bool)
        ensures
            r == (text::trim(self.printed()).len() == 0),
    {
        text::trimmed(self.out.as_slice()).len() == 0
    }

    /// The last characters that the guest printed, at most `n`.
    pub fn tail(&self, n: usize) -> (r: String)
        ensures
            r@ == ending(self.printed(), n as int),
            r@ == (if self.printed().len() > n {
                self.printed().skip(self.printed().len() - n)
            } else {
                self.printed()
            }),
    {
        if self.out.len() > n {
            text::string_of(text::skip(self.out.as_slice(), self.out.len() - n))
        } else {
            text::string_of(self.out.as_slice())
        }
    }
}

/// The line that `s` begins with, without its line feed, trimmed; none where it does not end.
pub open spec fn line_rest(s: Seq<char>) -> Option<Seq<char>> {
    match text::split_once(s, "\n"@) {
        Some((line, _)) => Some(text::trim(line)),
        None => None,
    }
}

/// Where the last of the patterns ends, each at its first place in what has not been consumed.
pub open spec fn last_end(w: Watch, pats: Seq<Seq<char>>) -> int
    decreases pats.len(),
{
    if pats.len() == 0 {
        w.consumed() as int
    } else {
        let front = last_end(w, pats.drop_last());
        let end = w.next(pats.last())->0 + pats.last().len();
        if end > front {
            end
        } else {
            front
        }
    }
}

/// What echoes among the first patterns echoes among all.
proof fn lemma_first_echo(w: Watch, pats: Seq<Seq<char>>, k: int)
    requires
        0 <= k <= pats.len(),
        w.first_echo(pats.take(k)) is Some,
    ensures
        w.first_echo(pats) == w.first_echo(pats.take(k)),
    decreases pats.len(),
{
    if k == pats.len() {
        assert(pats.take(k) =~= pats);
    } else {
        assert(pats.drop_last().take(k) =~= pats.take(k));
        lemma_first_echo(w, pats.drop_last(), k);
    }
}

/// A match is consumed: where the same pattern is seen twice, the second stands behind the first.
pub proof fn law_a_match_is_consumed(before: Watch, after: Watch, pat: Seq<char>)
    requires
        before.wf(),
        after.printed() == before.printed(),
        before.next(pat) is Some,
        after.consumed() == before.next(pat)->0 + pat.len(),
    ensures
        after.next(pat) matches Some(j) ==> j >= before.next(pat)->0 + pat.len(),
{
    text::lemma_find_from(after.printed(), pat, after.consumed() as int);
}

/// An unordered wait does not depend on the order of its patterns: exchanging two neighbours
/// leaves the place at which it ends.
pub proof fn law_order_does_not_matter(w: Watch, front: Seq<Seq<char>>, a: Seq<char>, b: Seq<char>)
    ensures
        last_end(w, front.push(a).push(b)) == last_end(w, front.push(b).push(a)),
{
    reveal_with_fuel(last_end, 3);
    assert(front.push(a).push(b).drop_last() =~= front.push(a));
    assert(front.push(b).push(a).drop_last() =~= front.push(b));
    assert(front.push(a).drop_last() =~= front);
    assert(front.push(b).drop_last() =~= front);
}

/// A line is whole where it ends in a line feed, and is read without it and trimmed; one that has not
/// ended is none yet.
pub proof fn law_a_line_is_whole_at_its_end(line: Seq<char>, more: Seq<char>)
    requires
        text::lacks(line, '\n'),
    ensures
        line_rest(line + "\n"@ + more) == Some(text::trim(line)),
        line_rest(line) is None,
{
    reveal_strlit("\n");
    text::lemma_cut(line, "\n"@, more);
    text::lemma_lacking(line, "\n"@, 0);
}

/// What is waited for is found at its first place behind what was consumed, wherever that is, and is
/// not found where it stands nowhere there.
pub proof fn law_the_next_match_is_the_first(w: Watch, pat: Seq<char>)
    requires
        w.wf(),
    ensures
        match w.next(pat) {
            Some(i) => {
                &&& w.consumed() <= i
                &&& i + pat.len() <= w.printed().len()
                &&& w.printed().subrange(i, i + pat.len()) == pat
                &&& forall|j: int| w.consumed() <= j < i ==> !text::occurs_at(w.printed(), pat, j)
            },
            None => forall|j: int| w.consumed() <= j ==> !text::occurs_at(w.printed(), pat, j),
        },
{
    text::lemma_find_from(w.printed(), pat, w.consumed() as int);
}

/// An unordered wait ends behind all of its patterns, and behind no more: at the end of one of them, or
/// where it began.
pub proof fn law_an_unordered_wait_ends_behind_its_last(w: Watch, pats: Seq<Seq<char>>, i: int)
    requires
        0 <= i < pats.len(),
    ensures
        last_end(w, pats) >= w.next(pats[i])->0 + pats[i].len(),
        last_end(w, pats) >= w.consumed(),
        last_end(w, pats) == w.consumed() || exists|j: int|
            0 <= j < pats.len() && last_end(w, pats) == (#[trigger] w.next(pats[j]))->0 + pats[j].len(),
    decreases pats.len(),
{
    let front = pats.drop_last();
    let last = pats.len() - 1;
    assert(pats[last] == pats.last());
    assert(w.next(pats[last]) == w.next(pats.last()));
    if front.len() > 0 {
        law_an_unordered_wait_ends_behind_its_last(w, front, if i < last {
            i
        } else {
            0
        });
        if i < last {
            assert(front[i] == pats[i]);
        }
        if last_end(w, front) != w.consumed() {
            let j = choose|j: int|
                0 <= j < front.len() && last_end(w, front) == (#[trigger] w.next(front[j]))->0
                    + front[j].len();
            assert(front[j] == pats[j]);
            assert(w.next(pats[j]) == w.next(front[j]));
        }
    }
}

/// What came is seen even where it is late, an echo is never taken for an answer, and only what has
/// neither come nor run out of time is waited for.
pub proof fn law_what_came_late_is_seen(echoed: bool, came: bool, late: bool)
    ensures
        waited(echoed, came, late) is Echoed <==> echoed,
        waited(echoed, came, late) is Seen <==> came && !echoed,
        waited(echoed, came, late) is TimedOut <==> late && !came && !echoed,
        waited(echoed, came, late) is Wait <==> !late && !came && !echoed,
{
}

/// A wait for several is refused exactly where the echo would satisfy one of them, whichever it is, and
/// the first such is told.
pub proof fn law_one_echo_refuses_the_wait(w: Watch, pats: Seq<Seq<char>>)
    ensures
        match w.first_echo(pats) {
            Some(k) => 0 <= k < pats.len() && transcript::echoed(w.typed(), pats[k]) is Some
                && forall|j: int| 0 <= j < k ==> transcript::echoed(w.typed(), #[trigger] pats[j])
                is None,
            None => forall|j: int| 0 <= j < pats.len() ==> transcript::echoed(
                w.typed(),
                #[trigger] pats[j],
            ) is None,
        },
    decreases pats.len(),
{
    if pats.len() > 0 {
        let front = pats.drop_last();
        law_one_echo_refuses_the_wait(w, front);
        assert forall|j: int| 0 <= j < front.len() implies front[j] == #[trigger] pats[j] by {}
        assert(pats[pats.len() - 1] == pats.last());
    }
}

/// What is shown of a transcript is its end: no more than asked for, and all where there is no more.
pub proof fn law_the_end_of_a_transcript_is_shown(before: Seq<char>, last: Seq<char>)
    ensures
        ending(before + last, last.len() as int) == last,
        forall|n: int| n >= last.len() ==> #[trigger] ending(last, n) == last,
{
    let s = before + last;
    assert(s.skip(before.len() as int) =~= last);
    if before.len() == 0 {
        assert(s =~= last);
    }
}

} // verus!
