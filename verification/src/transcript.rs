//! What a guest's transcript has to say, and has to leave unsaid, for a gate to pass.

use vstd::prelude::*;

use crate::number;
use crate::text;
use crate::wire;

verus! {

/// The piece of `s` after the first `pat` and before the second.
pub open spec fn second_piece(s: Seq<char>, pat: Seq<char>) -> Option<Seq<char>> {
    let p = text::split(s, pat);
    if p.len() > 1 {
        Some(p[1])
    } else {
        None
    }
}

/// How often `pat` stands in `s`, counted without overlap from the front.
pub open spec fn occurrences(s: Seq<char>, pat: Seq<char>) -> int {
    text::split(s, pat).len() - 1
}

/// The counts of a reflow that a line reports as `…, lines before->after, evicted…`.
pub open spec fn reflow(line: Seq<char>) -> Option<(u32, u32, u32)> {
    match second_piece(line, ", lines "@) {
        None => None,
        Some(tail) => match text::split_once(text::trim(tail), ", "@) {
            None => None,
            Some((counts, rest)) => match text::split_once(counts, "->"@) {
                None => None,
                Some((a, b)) => match (
                    number::u32_of(a),
                    number::u32_of(b),
                    number::u32_of(text::leading_digits(rest)),
                ) {
                    (Some(a), Some(b), Some(e)) => Some((a, b, e)),
                    _ => None,
                },
            },
        },
    }
}

/// The reflows of the lines, in order.
pub open spec fn reflows(ls: Seq<Seq<char>>) -> Seq<(u32, u32, u32)>
    decreases ls.len(),
{
    if ls.len() == 0 {
        Seq::empty()
    } else {
        match reflow(ls.last()) {
            Some(x) => reflows(ls.drop_last()).push(x),
            None => reflows(ls.drop_last()),
        }
    }
}

/// The number of leading characters that are digits or `x`.
pub open spec fn size_run(s: Seq<char>) -> nat
    decreases s.len(),
{
    if s.len() > 0 && (text::is_digit(s[0]) || s[0] == 'x') {
        1 + size_run(s.skip(1))
    } else {
        0
    }
}

/// The columns and rows that a line reports as `…, grid CxR…`.
pub open spec fn grid(line: Seq<char>) -> Option<(u32, u32)> {
    match second_piece(line, ", grid "@) {
        None => None,
        Some(tail) => {
            let t = text::trim(tail);
            match text::split_once(t.take(size_run(t) as int), "x"@) {
                None => None,
                Some((c, r)) => match (number::u32_of(c), number::u32_of(r)) {
                    (Some(c), Some(r)) => Some((c, r)),
                    _ => None,
                },
            }
        },
    }
}

/// The order of grids: by columns, then by rows.
pub open spec fn grid_le(a: (u32, u32), b: (u32, u32)) -> bool {
    a.0 < b.0 || (a.0 == b.0 && a.1 <= b.1)
}

/// The larger of two grids; the one there is, where there is but one.
pub open spec fn larger(a: Option<(u32, u32)>, b: Option<(u32, u32)>) -> Option<(u32, u32)> {
    match (a, b) {
        (a, None) => a,
        (None, b) => b,
        (Some(m), Some(g)) => if grid_le(g, m) {
            Some(m)
        } else {
            Some(g)
        },
    }
}

fn second<'a>(s: &'a [char], pat: &str) -> (r: Option<&'a [char]>)
    requires
        pat@.len() > 0,
    ensures
        match r {
            Some(t) => second_piece(s@, pat@) == Some(t@),
            None => second_piece(s@, pat@) is None,
        },
{
    let p = text::pieces(s, pat);
    assert(text::views(p@).len() == p.len());
    if p.len() > 1 {
        assert(text::views(p@)[1] == p[1]@);
        Some(p[1])
    } else {
        None
    }
}

fn read_reflow(line: &[char]) -> (r: Option<(u32, u32, u32)>)
    ensures
        r == reflow(line@),
{
    proof {
        reveal_strlit(", lines ");
    }
    let tail = second(line, ", lines ")?;
    let (counts, rest) = text::cut(text::trimmed(tail), ", ")?;
    let (a, b) = text::cut(counts, "->")?;
    let a: u32 = number::parse_u32(a)?;
    let b: u32 = number::parse_u32(b)?;
    let e: u32 = number::parse_u32(text::digits(rest))?;
    Some((a, b, e))
}

fn read_grid(line: &[char]) -> (r: Option<(u32, u32)>)
    ensures
        r == grid(line@),
{
    proof {
        reveal_strlit(", grid ");
    }
    let tail = second(line, ", grid ")?;
    let t = text::trimmed(tail);
    let mut i: usize = 0;
    assert(t@.skip(0) =~= t@);
    while i < t.len() && (text::digit(t[i]) || t[i] == 'x')
        invariant
            i <= t.len(),
            size_run(t@) == i + size_run(t@.skip(i as int)),
        decreases t.len() - i,
    {
        assert(t@.skip(i as int).skip(1) =~= t@.skip(i + 1));
        i = i + 1;
    }
    let (c, w) = text::cut(text::take(t, i), "x")?;
    let c: u32 = number::parse_u32(c)?;
    let w: u32 = number::parse_u32(w)?;
    Some((c, w))
}

/// Every reflow in the transcript: the lines before, the lines after, the lines evicted.
pub fn transcript_reflows(transcript: &str) -> (r: Vec<(u32, u32, u32)>)
    ensures
        r@ == reflows(text::lines(transcript@)),
{
    let c = text::chars_of(transcript);
    let ls = text::lines_of(c.as_slice());
    let ghost all = text::lines(transcript@);
    let mut out: Vec<(u32, u32, u32)> = Vec::new();
    let mut i: usize = 0;
    while i < ls.len()
        invariant
            i <= ls.len(),
            all == text::views(ls@),
            out@ == reflows(all.take(i as int)),
        decreases ls.len() - i,
    {
        assert(all.take(i + 1).drop_last() =~= all.take(i as int));
        assert(all.take(i + 1).last() == ls[i as int]@);
        match read_reflow(ls[i]) {
            Some(x) => {
                out.push(x);
            },
            None => {},
        }
        i = i + 1;
    }
    assert(all.take(i as int) =~= all);
    out
}

/// The largest grid that the lines tell of.
pub open spec fn largest_grid(ls: Seq<Seq<char>>) -> Option<(u32, u32)>
    decreases ls.len(),
{
    if ls.len() == 0 {
        None
    } else {
        larger(largest_grid(ls.drop_last()), grid(ls.last()))
    }
}

/// The largest grid that the transcript reports.
pub fn transcript_grid(transcript: &str) -> (r: Option<(u32, u32)>)
    ensures
        ({
            let ls = text::lines(transcript@);
            match r {
                Some(m) => (exists|i: int|
                    0 <= i < ls.len() && grid(#[trigger] ls[i]) == Some(m)) && forall|i: int|
                    0 <= i < ls.len() && grid(ls[i]) is Some ==> grid_le(
                        grid(#[trigger] ls[i])->0,
                        m,
                    ),
                None => forall|i: int| 0 <= i < ls.len() ==> grid(#[trigger] ls[i]) is None,
            }
        }),
        r == largest_grid(text::lines(transcript@)),
{
    let c = text::chars_of(transcript);
    let ls = text::lines_of(c.as_slice());
    let ghost all = text::lines(transcript@);
    let mut best: Option<(u32, u32)> = None;
    let mut i: usize = 0;
    while i < ls.len()
        invariant
            i <= ls.len(),
            best == largest_grid(all.take(i as int)),
            all == text::views(ls@),
            match best {
                Some(m) => (exists|k: int|
                    0 <= k < i && grid(#[trigger] all[k]) == Some(m)) && forall|k: int|
                    0 <= k < i && grid(all[k]) is Some ==> grid_le(grid(#[trigger] all[k])->0, m),
                None => forall|k: int| 0 <= k < i ==> grid(#[trigger] all[k]) is None,
            },
        decreases ls.len() - i,
    {
        assert(all.take(i + 1).drop_last() =~= all.take(i as int));
        assert(all[i as int] == ls[i as int]@);
        match read_grid(ls[i]) {
            Some(g) => {
                let better = match best {
                    Some(m) => m.0 < g.0 || (m.0 == g.0 && m.1 < g.1),
                    None => true,
                };
                if better {
                    best = Some(g);
                }
            },
            None => {},
        }
        i = i + 1;
    }
    assert(all.take(i as int) =~= all);
    best
}

proof fn lemma_largest_of_both(x: Seq<Seq<char>>, y: Seq<Seq<char>>)
    ensures
        largest_grid(x + y) == larger(largest_grid(x), largest_grid(y)),
    decreases y.len(),
{
    if y.len() == 0 {
        assert(x + y =~= x);
    } else {
        lemma_largest_of_both(x, y.drop_last());
        assert((x + y).drop_last() =~= x + y.drop_last());
        assert((x + y).last() == y.last());
    }
}

proof fn lemma_grid_without_return(line: Seq<char>)
    ensures
        grid(text::strip_cr(line)) == grid(line),
{
    if line.len() > 0 && line.last() == '\r' {
        reveal_strlit(", grid ");
        let pat = ", grid "@;
        let l = line.drop_last();
        assert(l.push('\r') =~= line);
        text::lemma_split_push(l, pat, '\r');
        let p = text::split(l, pat);
        if p.len() == 2 {
            text::lemma_trim_push(p[1], '\r');
        }
    }
}

/// The largest grid of two transcripts, one behind the other, is the larger of theirs: the last
/// counts for no more than the others, and there is none only where neither reports one.
pub proof fn law_the_largest_grid_wins(a: Seq<char>, b: Seq<char>)
    ensures
        largest_grid(text::lines(a + "\n"@ + b)) == larger(
            largest_grid(text::lines(a)),
            largest_grid(text::lines(b)),
        ),
{
    text::lemma_lines_join(a, b);
    lemma_largest_of_both(text::lines(a + "\n"@), text::lines(b));
    text::lemma_lines_end(a);
    let x = text::lines(a);
    let y = text::lines(a + "\n"@);
    assert(y.drop_last() =~= x || y.drop_last() =~= x.drop_last());
    if y == x.push(Seq::empty()) {
        let none = Seq::<char>::empty();
        reveal_strlit(", grid ");
        text::lemma_find(none, ", grid "@);
        assert(grid(none) is None);
    } else {
        lemma_grid_without_return(x.last());
    }
}

/// A reflow that loses nothing: what was there is there still, or was counted as evicted.
pub fn reflow_accounts_for_every_line(r: (u32, u32, u32)) -> (ok: bool)
    ensures
        ok == (r.1 + r.2 == r.0),
{
    r.1 as u64 + r.2 as u64 == r.0 as u64
}

/// The first line sent that `pat` stands in: what the guest's echo alone would satisfy.
pub open spec fn echoed(sent: Seq<Seq<char>>, pat: Seq<char>) -> Option<int>
    decreases sent.len(),
{
    if pat.len() == 0 || sent.len() == 0 {
        None
    } else {
        match echoed(sent.drop_last(), pat) {
            Some(i) => Some(i),
            None => if text::contains(sent.last(), pat) {
                Some(sent.len() - 1)
            } else {
                None
            },
        }
    }
}

/// Which of `sent`, the lines typed since the last match, would satisfy `pat` by echo alone.
pub fn echo_source<'a>(sent: &'a [String], pat: &str) -> (r: Option<&'a str>)
    ensures
        match (r, echoed(text::strs(sent@), pat@)) {
            (Some(s), Some(i)) => 0 <= i < sent.len() && s@ == sent[i]@,
            (None, None) => true,
            _ => false,
        },
{
    let p = text::chars_of(pat);
    if p.len() == 0 {
        return None;
    }
    let ghost all = text::strs(sent@);
    let mut i: usize = 0;
    while i < sent.len()
        invariant
            i <= sent.len(),
            all == text::strs(sent@),
            p@ == pat@,
            p.len() > 0,
            echoed(all.take(i as int), pat@) is None,
        decreases sent.len() - i,
    {
        assert(all.take(i + 1).drop_last() =~= all.take(i as int));
        assert(all.take(i + 1).last() == sent[i as int]@);
        let s = text::chars_of(sent[i].as_str());
        if text::has(s.as_slice(), p.as_slice()) {
            proof {
                lemma_echoed_prefix(all, pat@, i + 1);
            }
            return Some(sent[i].as_str());
        }
        i = i + 1;
    }
    assert(all.take(i as int) =~= all);
    None
}

/// An echo among the first lines is the echo among all of them.
proof fn lemma_echoed_prefix(sent: Seq<Seq<char>>, pat: Seq<char>, k: int)
    requires
        0 <= k <= sent.len(),
        echoed(sent.take(k), pat) is Some,
    ensures
        echoed(sent, pat) == echoed(sent.take(k), pat),
    decreases sent.len(),
{
    if k == sent.len() {
        assert(sent.take(k) =~= sent);
    } else {
        assert(sent.drop_last().take(k) =~= sent.take(k));
        lemma_echoed_prefix(sent.drop_last(), pat, k);
    }
}

/// A pattern is refused exactly where some line typed since the last match holds it; an empty
/// pattern never is.
pub proof fn law_every_echo_is_caught(sent: Seq<Seq<char>>, pat: Seq<char>)
    ensures
        echoed(sent, pat) is Some <==> pat.len() > 0 && exists|i: int|
            0 <= i < sent.len() && text::contains(#[trigger] sent[i], pat),
        echoed(sent, pat) matches Some(i) ==> 0 <= i < sent.len() && text::contains(sent[i], pat),
    decreases sent.len(),
{
    if pat.len() > 0 && sent.len() > 0 {
        let init = sent.drop_last();
        law_every_echo_is_caught(init, pat);
        if exists|i: int| 0 <= i < sent.len() && text::contains(#[trigger] sent[i], pat) {
            let i = choose|i: int| 0 <= i < sent.len() && text::contains(#[trigger] sent[i], pat);
            if i < init.len() {
                assert(init[i] == sent[i]);
            }
        }
        if echoed(init, pat) is Some {
            let i = echoed(init, pat)->0;
            assert(init[i] == sent[i]);
        }
    }
}

/// Why two concurrent sessions were not shown.
#[derive(Debug, Clone, Copy, PartialEq, Eq, Structural)]
pub enum SessionsFault {
    /// A shell started with an empty environment.
    EmptyEnvironment,
    /// Fewer than two shells reported an environment.
    TooFewShells(usize),
    /// The launched terminal never hosted a shell.
    NoHostedShell,
    /// The `desktop` command left out one of its lines, by its place in [`desktop_line`].
    DesktopSilent(usize),
    /// The compositor gave up waiting for the manager.
    ManagerDeadline,
    /// The applications modal had nothing to list.
    EmptyModal,
    /// The graphical session never started.
    NoGraphicalSession,
    /// The graphical session ended first.
    SessionEnded,
}

/// What the `desktop` command reports, line by line.
pub open spec fn desktop_line(i: int) -> Seq<char> {
    if i == 0 {
        "desktop: running"@
    } else if i == 1 {
        "desktop: listed 3 desktops (table)"@
    } else {
        "desktop: named 2 cli"@
    }
}

/// The first fault that a transcript of the two sessions shows.
pub open spec fn sessions_fault(t: Seq<char>) -> Option<SessionsFault> {
    let shells = occurrences(t, "nxsh: up (env: "@);
    if text::contains(t, "nxsh: up (env: 0 fields)"@) {
        Some(SessionsFault::EmptyEnvironment)
    } else if shells < 2 {
        Some(SessionsFault::TooFewShells(shells as usize))
    } else if !text::contains(t, "nxterm: hosting a shell"@) {
        Some(SessionsFault::NoHostedShell)
    } else if !text::contains(t, desktop_line(0)) {
        Some(SessionsFault::DesktopSilent(0))
    } else if !text::contains(t, desktop_line(1)) {
        Some(SessionsFault::DesktopSilent(1))
    } else if !text::contains(t, desktop_line(2)) {
        Some(SessionsFault::DesktopSilent(2))
    } else if text::contains(t, "compositor: no manager answer for window"@) {
        Some(SessionsFault::ManagerDeadline)
    } else if text::contains(t, "desktop-shell: /bin lists 0 programs"@) {
        Some(SessionsFault::EmptyModal)
    } else if !text::contains(t, "desktop-shell: up (graphical session leader)"@) {
        Some(SessionsFault::NoGraphicalSession)
    } else if text::contains(t, "desktop-session-mgr: session ended"@) {
        Some(SessionsFault::SessionEnded)
    } else {
        None
    }
}

/// Checks that a graphical and a serial session ran at the same time.
pub fn check_two_sessions(transcript: &str) -> (r: Result<(), SessionsFault>)
    ensures
        match sessions_fault(transcript@) {
            Some(f) => r == Err::<(), SessionsFault>(f),
            None => r is Ok,
        },
{
    let c = text::chars_of(transcript);
    let t = c.as_slice();
    proof {
        reveal_strlit("nxsh: up (env: ");
    }
    let parts = text::pieces(t, "nxsh: up (env: ");
    assert(text::views(parts@).len() == parts.len());
    let shells: usize = parts.len() - 1;
    if text::has_str(t, "nxsh: up (env: 0 fields)") {
        return Err(SessionsFault::EmptyEnvironment);
    }
    if shells < 2 {
        return Err(SessionsFault::TooFewShells(shells));
    }
    if !text::has_str(t, "nxterm: hosting a shell") {
        return Err(SessionsFault::NoHostedShell);
    }
    if !text::has_str(t, "desktop: running") {
        return Err(SessionsFault::DesktopSilent(0));
    }
    if !text::has_str(t, "desktop: listed 3 desktops (table)") {
        return Err(SessionsFault::DesktopSilent(1));
    }
    if !text::has_str(t, "desktop: named 2 cli") {
        return Err(SessionsFault::DesktopSilent(2));
    }
    if text::has_str(t, "compositor: no manager answer for window") {
        return Err(SessionsFault::ManagerDeadline);
    }
    if text::has_str(t, "desktop-shell: /bin lists 0 programs") {
        return Err(SessionsFault::EmptyModal);
    }
    if !text::has_str(t, "desktop-shell: up (graphical session leader)") {
        return Err(SessionsFault::NoGraphicalSession);
    }
    if text::has_str(t, "desktop-session-mgr: session ended") {
        return Err(SessionsFault::SessionEnded);
    }
    Ok(())
}

/// Why an exit was not attributed to the service that made it.
#[derive(Debug, Clone, Copy, PartialEq, Eq, Structural)]
pub enum AttributionFault {
    /// The probe's exit was not reported with its status.
    NotAttributed,
    /// A service that never exited was restarted.
    Misattributed,
}

/// What a transcript says of the attribution of the probe's exit.
pub open spec fn attribution(t: Seq<char>) -> Result<(), AttributionFault> {
    if !text::contains(t, "service-mgr: 'boot-probe' exited code=0"@) {
        Err(AttributionFault::NotAttributed)
    } else if text::contains(t, "service-mgr: restarting 'heartbeat'"@) {
        Err(AttributionFault::Misattributed)
    } else {
        Ok(())
    }
}

/// Checks that the service manager attributed the probe's exit to the probe.
pub fn check_service_attribution(transcript: &[u8]) -> (r: Result<(), AttributionFault>)
    ensures
        r == attribution(wire::decoded(transcript@)),
{
    let t = wire::lossy(transcript);
    attributed(t.as_str())
}

/// Checks a transcript's text for the attribution of the probe's exit.
pub fn attributed(transcript: &str) -> (r: Result<(), AttributionFault>)
    ensures
        r == attribution(transcript@),
{
    let c = text::chars_of(transcript);
    if !text::has_str(c.as_slice(), "service-mgr: 'boot-probe' exited code=0") {
        return Err(AttributionFault::NotAttributed);
    }
    if text::has_str(c.as_slice(), "service-mgr: restarting 'heartbeat'") {
        return Err(AttributionFault::Misattributed);
    }
    Ok(())
}

/// What the display self-test prints when it passes.
pub open spec fn selftest_line() -> Seq<char> {
    "display-selftest: PASSED"@
}

/// What the demo chain prints when it finishes.
pub open spec fn demo_line() -> Seq<char> {
    "test-harness: all smoke tests passed"@
}

/// What the session manager prints when it holds its endpoints.
pub open spec fn login_line() -> Seq<char> {
    "session-mgr: received fs + profile endpoints; auth resolved from /svc/auth"@
}

/// Whether a transcript's text shows `line`.
pub fn shows(transcript: &str, line: &str) -> (r: bool)
    ensures
        r == text::contains(transcript@, line@),
{
    let c = text::chars_of(transcript);
    text::has_str(c.as_slice(), line)
}

/// Whether the display self-test passed.
pub fn check_display_selftest(transcript: &[u8]) -> (r: bool)
    ensures
        r == text::contains(wire::decoded(transcript@), selftest_line()),
{
    let t = wire::lossy(transcript);
    shows(t.as_str(), "display-selftest: PASSED")
}

/// Whether the demo chain finished.
pub fn check_demo_chain(transcript: &[u8]) -> (r: bool)
    ensures
        r == text::contains(wire::decoded(transcript@), demo_line()),
{
    let t = wire::lossy(transcript);
    shows(t.as_str(), "test-harness: all smoke tests passed")
}

/// Whether the login chain came up.
pub fn check_login_chain(transcript: &[u8]) -> (r: bool)
    ensures
        r == text::contains(wire::decoded(transcript@), login_line()),
{
    let t = wire::lossy(transcript);
    shows(
        t.as_str(),
        "session-mgr: received fs + profile endpoints; auth resolved from /svc/auth",
    )
}

/// The line from the first `pat` on, if `pat` stands in the transcript.
pub open spec fn line_from(t: Seq<char>, pat: Seq<char>) -> Option<Seq<char>> {
    match text::find(t, pat) {
        Some(i) => Some(text::lines(t.skip(i))[0]),
        None => None,
    }
}

fn first_line_from(t: &[char], pat: &str) -> (r: Option<String>)
    requires
        pat@.len() > 0,
    ensures
        match r {
            Some(l) => line_from(t@, pat@) == Some(l@),
            None => line_from(t@, pat@) is None,
        },
{
    let p = text::chars_of(pat);
    match text::position(t, p.as_slice()) {
        Some(i) => {
            let tail = text::skip(t, i);
            let ls = text::lines_of(tail);
            assert(text::views(ls@).len() == ls.len());
            assert(ls.len() > 0);
            assert(text::views(ls@)[0] == ls[0]@);
            Some(text::string_of(ls[0]))
        },
        None => None,
    }
}

/// The first report that a declared service failed to start.
pub open spec fn failed_start(t: Seq<char>) -> Option<Seq<char>> {
    match line_from(t, "service-mgr: image not found"@) {
        Some(l) => Some(l),
        None => line_from(t, "service-mgr: spawn FAIL"@),
    }
}

/// Checks that every declared service started; the error is the line that says one did not.
pub fn check_every_service_started(transcript: &[u8]) -> (r: Result<(), String>)
    ensures
        match r {
            Ok(_) => failed_start(wire::decoded(transcript@)) is None,
            Err(l) => failed_start(wire::decoded(transcript@)) == Some(l@),
        },
{
    let t = wire::lossy(transcript);
    every_service_started(t.as_str())
}

/// Checks a transcript's text for a declared service that did not start.
pub fn every_service_started(transcript: &str) -> (r: Result<(), String>)
    ensures
        match r {
            Ok(_) => failed_start(transcript@) is None,
            Err(l) => failed_start(transcript@) == Some(l@),
        },
{
    let c = text::chars_of(transcript);
    proof {
        reveal_strlit("service-mgr: image not found");
        reveal_strlit("service-mgr: spawn FAIL");
    }
    match first_line_from(c.as_slice(), "service-mgr: image not found") {
        Some(l) => {
            return Err(l);
        },
        None => {},
    }
    match first_line_from(c.as_slice(), "service-mgr: spawn FAIL") {
        Some(l) => {
            return Err(l);
        },
        None => {},
    }
    Ok(())
}

/// Why an integration run failed.
#[derive(Debug)]
pub enum RunFault {
    /// No verdict came in time.
    TimedOut,
    /// The machine was ended by a signal.
    Signalled,
    /// The machine ended with another status than the passing one.
    Failed(i32),
    /// The login chain did not come up.
    LoginChain,
    /// The demo chain did not finish.
    DemoChain,
    /// The display self-test did not pass.
    DisplaySelftest,
    /// A declared service failed to start, as this line says.
    ServiceStart(String),
}

/// The status with which the machine ends after a passing verdict.
pub const PASS_EXIT: i32 = 33;

/// The verdict that the guest writes on success.
pub const PASS_CODE: u8 = 0x10;

/// The machine's exit status for a verdict that the guest writes.
pub open spec fn exit_status(verdict: u8) -> int {
    2 * verdict + 1
}

/// The passing status is the one of the passing verdict, and of no other.
pub proof fn law_only_the_passing_verdict_passes(verdict: u8)
    ensures
        exit_status(verdict) == PASS_EXIT <==> verdict == PASS_CODE,
{
}

/// What an integration run comes to.
pub enum RunView {
    Passed,
    TimedOut,
    Signalled,
    Failed(i32),
    LoginChain,
    DemoChain,
    DisplaySelftest,
    ServiceStart(Seq<char>),
}

/// What an integration run comes to, by how the machine ended and what it said. The guest's own
/// word is not enough: what it does not count as a failure is looked for besides.
pub open spec fn run_outcome(timed_out: bool, status: Option<i32>, t: Seq<char>) -> RunView {
    if timed_out {
        RunView::TimedOut
    } else {
        match status {
            None => RunView::Signalled,
            Some(code) => if code != PASS_EXIT {
                RunView::Failed(code)
            } else if !text::contains(t, login_line()) {
                RunView::LoginChain
            } else if !text::contains(t, demo_line()) {
                RunView::DemoChain
            } else if !text::contains(t, selftest_line()) {
                RunView::DisplaySelftest
            } else {
                match failed_start(t) {
                    Some(l) => RunView::ServiceStart(l),
                    None => RunView::Passed,
                }
            },
        }
    }
}

/// What a result says of a run.
pub open spec fn run_view(r: Result<(), RunFault>) -> RunView {
    match r {
        Ok(_) => RunView::Passed,
        Err(RunFault::TimedOut) => RunView::TimedOut,
        Err(RunFault::Signalled) => RunView::Signalled,
        Err(RunFault::Failed(code)) => RunView::Failed(code),
        Err(RunFault::LoginChain) => RunView::LoginChain,
        Err(RunFault::DemoChain) => RunView::DemoChain,
        Err(RunFault::DisplaySelftest) => RunView::DisplaySelftest,
        Err(RunFault::ServiceStart(l)) => RunView::ServiceStart(l@),
    }
}

/// Adjudicates an integration run.
pub fn adjudicate(timed_out: bool, status: Option<i32>, transcript: &[u8]) -> (r: Result<
    (),
    RunFault,
>)
    ensures
        run_view(r) == run_outcome(timed_out, status, wire::decoded(transcript@)),
{
    if timed_out {
        return Err(RunFault::TimedOut);
    }
    match status {
        None => Err(RunFault::Signalled),
        Some(code) => {
            if code != PASS_EXIT {
                return Err(RunFault::Failed(code));
            }
            if !check_login_chain(transcript) {
                return Err(RunFault::LoginChain);
            }
            if !check_demo_chain(transcript) {
                return Err(RunFault::DemoChain);
            }
            if !check_display_selftest(transcript) {
                return Err(RunFault::DisplaySelftest);
            }
            match check_every_service_started(transcript) {
                Ok(_) => Ok(()),
                Err(l) => Err(RunFault::ServiceStart(l)),
            }
        },
    }
}

/// A run passes only if the machine ended with the passing status in time, and everything that is
/// looked for was said.
pub proof fn law_a_passing_run_said_everything(timed_out: bool, status: Option<i32>, t: Seq<char>)
    ensures
        run_outcome(timed_out, status, t) is Passed <==> !timed_out && status == Some(PASS_EXIT)
            && text::contains(t, login_line()) && text::contains(t, demo_line())
            && text::contains(t, selftest_line()) && failed_start(t) is None,
{
}

/// How many motions the input gate injects while the consumer is not reading.
pub const BURST: i64 = 30;

/// The horizontal motion of each.
pub const BURST_DX: i64 = 7;

/// The vertical motion of each.
pub const BURST_DY: i64 = 3;

/// The value of the first field `name=value` of a line, where it is a number.
pub open spec fn field(ws: Seq<Seq<char>>, name: Seq<char>) -> Option<i64>
    decreases ws.len(),
{
    if ws.len() == 0 {
        None
    } else {
        match text::split_once(ws[0], "="@) {
            Some((k, v)) if k == name => number::i64_of(v, 10),
            _ => field(ws.skip(1), name),
        }
    }
}

fn read_field(ws: &Vec<&[char]>, name: &str) -> (r: Option<i64>)
    ensures
        r == field(text::views(ws@), name@),
{
    let ghost all = text::views(ws@);
    let mut i: usize = 0;
    assert(all.skip(0) =~= all);
    while i < ws.len()
        invariant
            i <= ws.len(),
            all == text::views(ws@),
            field(all, name@) == field(all.skip(i as int), name@),
        decreases ws.len() - i,
    {
        assert(all.skip(i as int)[0] == ws[i as int]@);
        assert(all.skip(i as int).skip(1) =~= all.skip(i + 1));
        match text::cut(ws[i], "=") {
            Some((k, v)) => {
                if text::equals(k, name) {
                    return number::parse_i64(v, 10);
                }
            },
            None => {},
        }
        i = i + 1;
    }
    None
}

/// Why injected motion did not arrive as it should.
#[derive(Debug, Clone, Copy, PartialEq, Eq, Structural)]
pub enum MotionFault {
    /// The motions did not add up to what was injected.
    Lost { dx: Option<i64>, dy: Option<i64> },
    /// A loss was announced, though motion alone loses nothing.
    Announced(Option<i64>),
    /// Nothing was deferred, so nothing was tried.
    NotDeferred(Option<i64>),
}

/// What the line of motion sums shows.
pub open spec fn motion_fault(line: Seq<char>) -> Option<MotionFault> {
    let ws = text::words(line);
    let dx = field(ws, "dx"@);
    let dy = field(ws, "dy"@);
    let announced = field(ws, "announced"@);
    let widest = field(ws, "widest"@);
    if dx != Some(210i64) || dy != Some(90i64) {
        Some(MotionFault::Lost { dx, dy })
    } else if announced != Some(0i64) {
        Some(MotionFault::Announced(announced))
    } else if !(widest is Some && widest->0 > BURST_DX) {
        Some(MotionFault::NotDeferred(widest))
    } else {
        None
    }
}

/// Checks the line of motion sums of the input gate.
pub fn check_motion(line: &str) -> (r: Result<(), MotionFault>)
    ensures
        match motion_fault(line@) {
            Some(f) => r == Err::<(), MotionFault>(f),
            None => r is Ok,
        },
{
    let c = text::chars_of(line);
    let ws = text::words_of(c.as_slice());
    let dx = read_field(&ws, "dx");
    let dy = read_field(&ws, "dy");
    let announced = read_field(&ws, "announced");
    let widest = read_field(&ws, "widest");
    let whole = match (dx, dy) {
        (Some(a), Some(b)) => a == BURST * BURST_DX && b == BURST * BURST_DY,
        _ => false,
    };
    if !whole {
        return Err(MotionFault::Lost { dx, dy });
    }
    let silent = match announced {
        Some(n) => n == 0,
        None => false,
    };
    if !silent {
        return Err(MotionFault::Announced(announced));
    }
    let deferred = match widest {
        Some(w) => w > BURST_DX,
        None => false,
    };
    if !deferred {
        return Err(MotionFault::NotDeferred(widest));
    }
    Ok(())
}

/// A key line that a registered chord must not cause, by its place.
pub open spec fn chord_line(i: int) -> Seq<char> {
    if i == 0 {
        "win key code=59"@
    } else if i == 1 {
        "widget key code=59"@
    } else {
        "win key code=57"@
    }
}

/// Checks that no registered chord reached a window; the error is the place of the first line
/// that shows one did.
pub fn check_chords(transcript: &str) -> (r: Result<(), usize>)
    ensures
        match r {
            Ok(_) => forall|i: int| 0 <= i < 3 ==> !text::contains(transcript@, #[trigger] chord_line(i)),
            Err(k) => k < 3 && text::contains(transcript@, chord_line(k as int)) && forall|i: int|
                0 <= i < k ==> !text::contains(transcript@, #[trigger] chord_line(i)),
        },
{
    let c = text::chars_of(transcript);
    assert(chord_line(0) == "win key code=59"@);
    assert(chord_line(1) == "widget key code=59"@);
    assert(chord_line(2) == "win key code=57"@);
    if text::has_str(c.as_slice(), "win key code=59") {
        return Err(0);
    }
    if text::has_str(c.as_slice(), "widget key code=59") {
        return Err(1);
    }
    if text::has_str(c.as_slice(), "win key code=57") {
        return Err(2);
    }
    Ok(())
}

/// A number that is written out: it reads back, and holds nothing but digits.
proof fn lemma_number(n: u32)
    ensures
        number::u32_of(number::numeral(n as nat, 10)) == Some(n),
        number::numeral(n as nat, 10).len() > 0,
        forall|i: int|
            0 <= i < number::numeral(n as nat, 10).len() ==> text::is_digit(
                #[trigger] number::numeral(n as nat, 10)[i],
            ),
{
    let a = number::numeral(n as nat, 10);
    number::law_numeral_reads_back(n as nat, 10);
    assert(number::digit_value(a[0]) < 10);
    assert forall|i: int| 0 <= i < a.len() implies text::is_digit(#[trigger] a[i]) by {
        assert(number::digit_value(a[i]) < 10);
    }
}

/// A reflow that a line reports is read as its three counts: how many lines there were, how many are
/// left, and how many were evicted.
#[verifier::spinoff_prover]
#[verifier::rlimit(40)]
pub proof fn law_a_reflow_is_read(head: Seq<char>, a: u32, b: u32, gone: u32, tail: Seq<char>)
    requires
        text::find(head + ", lines "@, ", lines "@) == Some(head.len() as int),
        tail.len() == 0 || (!text::is_digit(tail[0]) && !text::is_space(tail.last())),
        !text::contains(tail, ", lines "@),
    ensures
        reflow(
            head + ", lines "@ + (number::numeral(a as nat, 10) + "->"@ + number::numeral(b as nat, 10)
                + ", "@ + (number::numeral(gone as nat, 10) + tail)),
        ) == Some((a, b, gone)),
{
    let pat = ", lines "@;
    assert(pat.len() == 8 && pat[0] == ',' && pat[1] == ' ' && pat[2] == 'l') by {
        reveal_strlit(", lines ");
    }
    assert(", "@.len() == 2 && ", "@[0] == ',' && ", "@[1] == ' ') by {
        reveal_strlit(", ");
    }
    assert("->"@.len() == 2 && "->"@[0] == '-' && "->"@[1] == '>') by {
        reveal_strlit("->");
    }
    let x = number::numeral(a as nat, 10);
    let y = number::numeral(b as nat, 10);
    let z = number::numeral(gone as nat, 10);
    lemma_number(a);
    lemma_number(b);
    lemma_number(gone);
    let counts = x + "->"@ + y;
    let piece = counts + ", "@ + (z + tail);
    assert forall|i: int| 0 <= i < counts.len() implies counts[i] != ',' by {
        if i < x.len() {
            assert(text::is_digit(x[i]));
        } else if i >= x.len() + 2 {
            assert(text::is_digit(y[i - x.len() - 2]));
        }
    }
    let n = counts.len() as int;
    assert forall|i: int| !text::occurs_at(piece, pat, i) by {
        if text::occurs_at(piece, pat, i) {
            text::lemma_begins(piece, pat, i, 0);
            text::lemma_begins(piece, pat, i, 2);
            if i < n {
                assert(piece[i] == counts[i]);
            } else if i == n {
                assert(piece[n + 2] == z[0]);
                assert(text::is_digit(z[0]));
            } else if n + 2 <= i < n + 2 + z.len() {
                assert(text::is_digit(z[i - n - 2]));
            } else if i >= n + 2 + z.len() {
                let k = i - n - 2 - z.len();
                assert(tail.subrange(k, k + pat.len()) =~= piece.subrange(i, i + pat.len()));
                assert(text::occurs_at(tail, pat, k));
                text::lemma_find(tail, pat);
            }
        }
    }
    text::lemma_find(piece, pat);
    assert(text::split(piece, pat) =~= seq![piece]);
    text::lemma_cut_first(head, pat, piece);
    assert(text::is_digit(x[0]));
    assert(piece[0] == x[0]);
    if tail.len() == 0 {
        assert(piece.last() == z.last());
        assert(text::is_digit(z[z.len() - 1]));
    } else {
        assert(piece.last() == tail.last());
    }
    text::lemma_trim_plain(piece);
    text::lemma_cut(counts, ", "@, z + tail);
    assert forall|i: int| 0 <= i < x.len() implies x[i] != '-' by {
        assert(text::is_digit(x[i]));
    }
    text::lemma_cut(x, "->"@, y);
    text::lemma_leading_digits(z, tail);
}

/// Every line that reports a reflow is counted, in order, and no other.
pub proof fn law_every_reflow_is_counted(ls: Seq<Seq<char>>, line: Seq<char>, more: Seq<Seq<char>>)
    ensures
        reflows(ls + more) == reflows(ls) + reflows(more),
        reflows(seq![line]) == match reflow(line) {
            Some(x) => seq![x],
            None => Seq::empty(),
        },
    decreases more.len(),
{
    reveal_with_fuel(reflows, 2);
    assert(seq![line].drop_last() =~= Seq::empty());
    if more.len() == 0 {
        assert(ls + more =~= ls);
        assert(reflows(ls) + reflows(more) =~= reflows(ls));
    } else {
        law_every_reflow_is_counted(ls, line, more.drop_last());
        assert((ls + more).drop_last() =~= ls + more.drop_last());
        assert((ls + more).last() == more.last());
        assert(reflows(ls + more) =~= reflows(ls) + reflows(more));
    }
}

proof fn lemma_size_run(a: Seq<char>, b: Seq<char>)
    requires
        forall|i: int| 0 <= i < a.len() ==> text::is_digit(#[trigger] a[i]) || a[i] == 'x',
        b.len() == 0 || !(text::is_digit(b[0]) || b[0] == 'x'),
    ensures
        size_run(a + b) == a.len(),
    decreases a.len(),
{
    let s = a + b;
    if a.len() == 0 {
        assert(s =~= b);
    } else {
        assert forall|i: int| 0 <= i < a.skip(1).len() implies text::is_digit(#[trigger] a.skip(1)[i])
            || a.skip(1)[i] == 'x' by {
            assert(a.skip(1)[i] == a[i + 1]);
        }
        lemma_size_run(a.skip(1), b);
        assert(s.skip(1) =~= a.skip(1) + b);
        assert(s[0] == a[0]);
    }
}

/// A grid that a line reports is read as its columns and rows, whatever follows it there.
#[verifier::spinoff_prover]
#[verifier::rlimit(40)]
pub proof fn law_a_grid_is_read(head: Seq<char>, columns: u32, rows: u32, tail: Seq<char>)
    requires
        text::find(head + ", grid "@, ", grid "@) == Some(head.len() as int),
        tail.len() == 0 || (!text::is_digit(tail[0]) && tail[0] != 'x' && !text::is_space(tail.last())),
        !text::contains(tail, ", grid "@),
    ensures
        grid(
            head + ", grid "@ + (number::numeral(columns as nat, 10) + "x"@ + number::numeral(
                rows as nat,
                10,
            ) + tail),
        ) == Some((columns, rows)),
{
    let pat = ", grid "@;
    assert(pat.len() == 7 && pat[0] == ',') by {
        reveal_strlit(", grid ");
    }
    assert("x"@.len() == 1 && "x"@[0] == 'x') by {
        reveal_strlit("x");
    }
    let c = number::numeral(columns as nat, 10);
    let r = number::numeral(rows as nat, 10);
    lemma_number(columns);
    lemma_number(rows);
    let size = c + "x"@ + r;
    let piece = size + tail;
    let n = size.len() as int;
    assert forall|i: int| 0 <= i < n implies text::is_digit(#[trigger] size[i]) || size[i] == 'x' by {
        if i < c.len() {
            assert(text::is_digit(c[i]));
        } else if i > c.len() {
            assert(text::is_digit(r[i - c.len() - 1]));
        }
    }
    assert forall|i: int| !text::occurs_at(piece, pat, i) by {
        if text::occurs_at(piece, pat, i) {
            text::lemma_begins(piece, pat, i, 0);
            if i < n {
                assert(piece[i] == size[i]);
            } else {
                let k = i - n;
                assert(tail.subrange(k, k + pat.len()) =~= piece.subrange(i, i + pat.len()));
                assert(text::occurs_at(tail, pat, k));
                text::lemma_find(tail, pat);
            }
        }
    }
    text::lemma_find(piece, pat);
    assert(text::split(piece, pat) =~= seq![piece]);
    text::lemma_cut_first(head, pat, piece);
    assert(text::is_digit(c[0]));
    assert(piece[0] == c[0]);
    if tail.len() == 0 {
        assert(piece.last() == r.last());
        assert(text::is_digit(r[r.len() - 1]));
    } else {
        assert(piece.last() == tail.last());
    }
    text::lemma_trim_plain(piece);
    lemma_size_run(size, tail);
    assert(piece.take(n) =~= size);
    assert forall|i: int| 0 <= i < c.len() implies c[i] != 'x' by {
        assert(text::is_digit(c[i]));
    }
    text::lemma_cut(c, "x"@, r);
}

/// The largest grid is one that a line reports, and no line reports a larger one: more columns, or as
/// many and more rows.
#[verifier::spinoff_prover]
#[verifier::rlimit(60)]
pub proof fn law_no_reported_grid_is_larger(ls: Seq<Seq<char>>, i: int)
    requires
        0 <= i < ls.len(),
    ensures
        grid(ls[i]) matches Some(g) ==> (largest_grid(ls) matches Some(m) && (g.0 < m.0 || (g.0 == m.0
            && g.1 <= m.1))),
        largest_grid(ls) is Some ==> exists|j: int|
            0 <= j < ls.len() && #[trigger] grid(ls[j]) == largest_grid(ls),
    decreases ls.len(),
{
    let front = ls.drop_last();
    assert(ls[ls.len() - 1] == ls.last());
    if ls.len() > 1 {
        let k = if i < front.len() {
            i
        } else {
            0
        };
        law_no_reported_grid_is_larger(front, k);
        if i < front.len() {
            assert(front[i] == ls[i]);
        }
        if largest_grid(front) is Some {
            let j = choose|j: int|
                0 <= j < front.len() && #[trigger] grid(front[j]) == largest_grid(front);
            assert(grid(ls[j]) == largest_grid(front));
        }
        assert(grid(ls[ls.len() - 1]) == grid(ls.last()));
    } else {
        assert(largest_grid(front) is None);
        assert(grid(ls[0]) == largest_grid(ls));
    }
}

/// Two sessions ran beside each other exactly where every shell had an environment and two came up,
/// the terminal hosted one, the desktop command answered three times, no window waited for its
/// manager in vain, the launcher found its programs, and the graphical session came up and went on.
pub proof fn law_two_sessions_ran_where_all_was_said(t: Seq<char>)
    ensures
        sessions_fault(t) is None <==> {
            &&& !text::contains(t, "nxsh: up (env: 0 fields)"@)
            &&& text::split(t, "nxsh: up (env: "@).len() >= 3
            &&& text::contains(t, "nxterm: hosting a shell"@)
            &&& text::contains(t, "desktop: running"@)
            &&& text::contains(t, "desktop: listed 3 desktops (table)"@)
            &&& text::contains(t, "desktop: named 2 cli"@)
            &&& !text::contains(t, "compositor: no manager answer for window"@)
            &&& !text::contains(t, "desktop-shell: /bin lists 0 programs"@)
            &&& text::contains(t, "desktop-shell: up (graphical session leader)"@)
            &&& !text::contains(t, "desktop-session-mgr: session ended"@)
        },
{
}

/// The probe's exit is attributed exactly where it was reported as the probe's, with no error, and the
/// service beside it was not started again for it.
pub proof fn law_an_exit_is_attributed_to_its_service(t: Seq<char>)
    ensures
        attribution(t) is Ok <==> text::contains(t, "service-mgr: 'boot-probe' exited code=0"@)
            && !text::contains(t, "service-mgr: restarting 'heartbeat'"@),
        attribution(t) matches Err(AttributionFault::Misattributed) ==> text::contains(
            t,
            "service-mgr: restarting 'heartbeat'"@,
        ),
        attribution(t) matches Err(AttributionFault::NotAttributed) ==> !text::contains(
            t,
            "service-mgr: 'boot-probe' exited code=0"@,
        ),
{
}

/// A run passes exactly where the machine ended in time and with the guest's own passing status, both
/// chains and the display's test said that they passed, and no service failed to start.
pub proof fn law_a_run_passes_where_all_was_said(timed_out: bool, status: Option<i32>, t: Seq<char>)
    ensures
        run_outcome(timed_out, status, t) is Passed <==> {
            &&& !timed_out
            &&& status matches Some(code) && code == 2 * 0x10 + 1
            &&& text::contains(
                t,
                "session-mgr: received fs + profile endpoints; auth resolved from /svc/auth"@,
            )
            &&& text::contains(t, "test-harness: all smoke tests passed"@)
            &&& text::contains(t, "display-selftest: PASSED"@)
            &&& !text::contains(t, "service-mgr: image not found"@)
            &&& !text::contains(t, "service-mgr: spawn FAIL"@)
        },
        run_outcome(timed_out, status, t) matches RunView::Failed(code) ==> status == Some(code) && code
            != 33,
        run_outcome(timed_out, status, t) is TimedOut <==> timed_out,
        run_outcome(timed_out, status, t) is Signalled <==> !timed_out && status is None,
{
    text::lemma_find(t, "service-mgr: image not found"@);
    text::lemma_find(t, "service-mgr: spawn FAIL"@);
}

/// The motions arrived exactly where their sums are those of thirty steps, none was announced to the
/// window, and more than one step was taken at once.
pub proof fn law_motions_add_up(line: Seq<char>)
    ensures
        motion_fault(line) is None <==> {
            let ws = text::words(line);
            &&& field(ws, "dx"@) == Some((30 * 7) as i64)
            &&& field(ws, "dy"@) == Some((30 * 3) as i64)
            &&& field(ws, "announced"@) == Some(0i64)
            &&& field(ws, "widest"@) matches Some(w) && w > 7
        },
{
}

/// A field is read where it stands first of its name, among fields of other names.
#[verifier::spinoff_prover]
#[verifier::rlimit(60)]
pub proof fn law_a_field_is_read(before: Seq<Seq<char>>, name: Seq<char>, value: Seq<char>, after: Seq<Seq<char>>)
    requires
        text::lacks(name, '='),
        forall|i: int|
            0 <= i < before.len() ==> !(text::split_once(#[trigger] before[i], "="@) matches Some(kv)
                && kv.0 == name),
    ensures
        field(before + seq![name + "="@ + value] + after, name) == number::i64_of(value, 10),
    decreases before.len(),
{
    reveal_strlit("=");
    let ws = before + seq![name + "="@ + value] + after;
    if before.len() == 0 {
        assert(ws[0] == name + "="@ + value);
        text::lemma_cut(name, "="@, value);
    } else {
        assert(ws[0] == before[0]);
        assert(ws.skip(1) =~= before.skip(1) + seq![name + "="@ + value] + after);
        assert forall|i: int| 0 <= i < before.skip(1).len() implies !(text::split_once(
            #[trigger] before.skip(1)[i],
            "="@,
        ) matches Some(kv) && kv.0 == name) by {
            assert(before.skip(1)[i] == before[i + 1]);
        }
        law_a_field_is_read(before.skip(1), name, value, after);
    }
}

/// The keys whose lines would show that a registered chord reached a window: its own key there, in
/// the window's report and in the widget's, and the other chord's key.
pub proof fn law_a_chord_reaches_no_window(t: Seq<char>)
    ensures
        (forall|i: int| 0 <= i < 3 ==> !text::contains(t, #[trigger] chord_line(i))) <==> {
            &&& !text::contains(t, "win key code=59"@)
            &&& !text::contains(t, "widget key code=59"@)
            &&& !text::contains(t, "win key code=57"@)
        },
{
    assert(chord_line(0) == "win key code=59"@);
    assert(chord_line(1) == "widget key code=59"@);
    assert(chord_line(2) == "win key code=57"@);
}

} // verus!
