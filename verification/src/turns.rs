//! How a graphical login goes on: which answers take it further and what it keeps of them, which end
//! it, and what its transcript has to show.

use vstd::prelude::*;

use crate::login;
use crate::login::AfterFault;
use crate::login::Login;
use crate::login::LoginFault;
use crate::login::TurnView;
use crate::number;
use crate::placement;
use crate::script::AnswerView;
use crate::script::AskView;
use crate::text;
use crate::transcript;

verus! {

/// The numbers that the shell's lines give are the ones that the login goes on with.
#[verifier::spinoff_prover]
#[verifier::rlimit(60)]
pub proof fn law_what_is_read_is_kept(s: Login, line: Seq<char>)
    ensures
        login::turn_of(s, AnswerView::Line(line)) matches TurnView::Go(t, _, _) ==> {
            &&& s.stage is Wallpaper ==> text::words(line).len() > 0 && number::u32_of(
                text::words(line)[0],
            ) == Some(t.wallpaper)
            &&& s.stage is Placed || s.stage is Replaced ==> placement::placement(line) == Some(
                (t.term.id, t.term.x, t.term.y),
            )
            &&& s.stage is Placed ==> t.first == t.term.id
            &&& s.stage is Sized || s.stage is Resized ==> placement::geometry(line) == Some(
                (t.term.w, t.term.h),
            )
            &&& s.stage is Files ==> placement::window_line(line, "geometry"@) == Some(
                (t.files.id, t.files.x, t.files.y, t.files.w, t.files.h),
            )
            &&& s.stage is Edit ==> placement::window_line(line, "geometry"@) == Some(
                (t.edit.id, t.edit.x, t.edit.y, t.edit.w, t.edit.h),
            )
            &&& s.stage is Blank ==> placement::placement(line) == Some(
                (t.blank.id, t.blank.x, t.blank.y),
            )
            &&& s.stage is Blank ==> t.blank.w == 560 && t.blank.h == 420
        },
{
}

/// The login goes on from a line that it can read, and only from one: what cannot be read ends it.
#[verifier::spinoff_prover]
#[verifier::rlimit(60)]
pub proof fn law_a_line_that_reads_is_enough(s: Login, line: Seq<char>)
    ensures
        ({
            let goes = login::turn_of(s, AnswerView::Line(line)) is Go;
            let placed = placement::placement(line) is Some;
            let asked = placement::dialog_placement(line) is Some;
            &&& s.stage is Wallpaper ==> (goes <==> text::words(line).len() > 0 && number::u32_of(
                text::words(line)[0],
            ) is Some)
            &&& s.stage is Placed || s.stage is Replaced || s.stage is Paste || s.stage is Blank ==> (
            goes <==> placed)
            &&& s.stage is Sized || s.stage is Resized ==> (goes <==> placement::geometry(line) is Some)
            &&& s.stage is Files || s.stage is Edit ==> (goes <==> placement::window_line(
                line,
                "geometry"@,
            ) is Some)
            &&& s.stage is Popup ==> (goes <==> placement::menu_popup(line) is Some)
            &&& s.stage is Second || s.stage is Asked ==> (goes <==> asked)
            &&& s.stage is Listed ==> goes
            &&& s.stage is Dialog && goes ==> asked
        }),
{
}

/// The wallpaper is on every desktop where the press names its window; the dropped file and the first
/// tab are current where the editor's line names their files.
#[verifier::spinoff_prover]
#[verifier::rlimit(60)]
pub proof fn law_a_press_names_its_window(s: Login, line: Seq<char>)
    ensures
        ({
            let t = login::turn_of(s, AnswerView::Line(line));
            &&& s.stage is Sticky ==> (t is Go <==> text::contains(
                line,
                "win="@ + number::numeral(s.wallpaper as nat, 10),
            )) && (t is Go || t == TurnView::Fault(LoginFault::NotSticky))
            &&& s.stage is Tab ==> (t is Go <==> text::contains(line, "other.txt"@)) && (t is Go || t
                == TurnView::Fault(LoginFault::NotCurrent))
            &&& s.stage is Switched ==> (t is Go <==> text::contains(line, "notes.txt"@)) && (t is Go
                || t == TurnView::Fault(LoginFault::NotSwitched))
        }),
{
}

/// The theme's font is read behind the last `font_px` of its line, and only the staged size passes.
#[verifier::spinoff_prover]
#[verifier::rlimit(60)]
pub proof fn law_only_the_staged_font_passes(s: Login, line: Seq<char>)
    ensures
        s.stage is Theme ==> match login::turn_of(s, AnswerView::Line(line)) {
            TurnView::Go(t, _, _) => {
                let parts = text::split(line, "font_px "@);
                parts.len() >= 2 && number::u32_of(text::trim(parts[parts.len() - 1])) == Some(t.px)
            },
            TurnView::Fault(f) => f is NoFont,
        },
        s.stage is Font ==> (login::turn_of(s, AnswerView::Nothing) is Go <==> s.px == 14),
        s.stage is Font && s.px != 14 ==> login::turn_of(s, AnswerView::Nothing) == TurnView::Fault(
            LoginFault::WrongFont(s.px),
        ),
{
}

/// A theme's line that ends in a font size is enough.
#[verifier::spinoff_prover]
#[verifier::rlimit(60)]
pub proof fn law_a_font_size_is_read(s: Login, head: Seq<char>, px: u32)
    requires
        s.stage is Theme,
        text::lacks(head, 'f'),
    ensures
        login::turn_of(
            s,
            AnswerView::Line(head + "font_px "@ + number::numeral(px as nat, 10)),
        ) matches TurnView::Go(t, _, _) && t.px == px,
{
    reveal_strlit("font_px ");
    let n = number::numeral(px as nat, 10);
    number::law_numeral_reads_back(px as nat, 10);
    assert(number::digit_value(n[0]) < 10);
    text::lemma_cut(head, "font_px "@, n);
    assert forall|i: int| 0 <= i < n.len() implies n[i] != 'f' && !text::is_space(#[trigger] n[i]) by {
        assert(number::digit_value(n[i]) < 16);
        assert(number::digit_value(n[i]) < 10);
    }
    text::lemma_lacking(n, "font_px "@, 0);
    assert(text::split(n, "font_px "@) =~= seq![n]);
    text::lemma_trim_plain(n);
}

/// What was pasted is asked for ten times in all; where it shows the login goes on at once, however
/// often it was asked for before.
#[verifier::spinoff_prover]
#[verifier::rlimit(60)]
pub proof fn law_the_pasted_word_is_asked_for_again(s: Login, seen: bool)
    requires
        s.stage is Clip,
        s.tries <= 10,
    ensures
        match login::turn_of(s, AnswerView::Seen(seen)) {
            TurnView::Go(t, acts, ask) => if seen {
                t.stage is Popup
            } else {
                &&& s.tries < 10
                &&& t == Login { tries: (s.tries + 1) as u32, ..s }
                &&& ask == AskView::Within("nitrox.clip"@, 3)
            },
            TurnView::Fault(f) => !seen && s.tries == 10 && f is NoClip,
        },
{
}

/// A closed window that is still listed is waited for, four lists in all; one that has left the list
/// lets the login go on with the editor's own place in it.
#[verifier::spinoff_prover]
#[verifier::rlimit(60)]
pub proof fn law_a_closed_window_leaves_the_list(s: Login, line: Seq<char>)
    requires
        s.stage is Closing,
        s.tries <= 4,
    ensures
        match login::turn_of(s, AnswerView::Line(line)) {
            TurnView::Go(t, _, _) => if placement::slot(line, s.blank.id) is Some {
                s.tries < 4 && t == Login { tries: (s.tries + 1) as u32, ..s }
            } else {
                &&& t.stage is Asked
                &&& placement::slot(line, s.edit.id) matches Some(k)
                &&& k < 0x1_0000_0000 ==> t.slot == k
            },
            TurnView::Fault(f) => if placement::slot(line, s.blank.id) is Some {
                f is StillListed && s.tries == 4
            } else {
                f is NotListed && placement::slot(line, s.edit.id) is None
            },
        },
{
    placement::law_a_slot_is_the_first_of_its_window(line, s.edit.id);
}

/// The burst is waited for by the press that it ends in, and a burst that did not arrive ends the
/// login.
#[verifier::spinoff_prover]
#[verifier::rlimit(60)]
pub proof fn law_a_burst_has_to_arrive(s: Login, seen: bool)
    ensures
        s.stage is Arrived ==> (login::turn_of(s, AnswerView::Seen(seen)) is Go <==> seen),
        s.stage is Arrived && !seen ==> login::turn_of(s, AnswerView::Seen(seen)) == TurnView::Fault(
            LoginFault::Drifted,
        ),
{
}

/// The first question passes exactly where it belongs to the editor without a file, has its published
/// size, and stands on that editor's middle or as near to it as the work area lets it: a smaller
/// distance on either side would leave the work area.
#[verifier::spinoff_prover]
#[verifier::rlimit(60)]
pub proof fn law_a_question_belongs_to_its_editor(s: Login, line: Seq<char>)
    requires
        s.stage is Dialog,
        placement::dialog_placement(line) is Some,
        s.work.w <= i32::MAX,
        s.work.h <= i32::MAX,
    ensures
        ({
            let d = placement::dialog_placement(line)->0;
            let left = s.work.x as int;
            let right = s.work.x + s.work.w - 340;
            let top = s.work.y as int;
            let foot = s.work.y + s.work.h - 132;
            let x = s.blank.x + (560 - 340) / 2;
            let y = s.blank.y + (420 - 132) / 2;
            login::turn_of(s, AnswerView::Line(line)) is Go <==> {
                &&& d.1 == s.blank.id
                &&& d.4 == 340 && d.5 == 132
                &&& left <= d.2 <= right && top <= d.3 <= foot
                &&& d.2 == x || (d.2 == left && x < left) || (d.2 == right && x > right)
                &&& d.3 == y || (d.3 == top && y < top) || (d.3 == foot && y > foot)
            }
        }),
{
}

/// An answer to what was not asked ends the login.
#[verifier::spinoff_prover]
#[verifier::rlimit(60)]
pub proof fn law_an_answer_out_of_step_ends_the_login(s: Login, line: Seq<char>, seen: bool)
    ensures
        ({
            let waits = s.stage is Arrived || s.stage is Clip;
            let plain = s.stage is Start || s.stage is Overview || s.stage is Drags || s.stage is Burst
                || s.stage is Font || s.stage is Snap;
            &&& !waits ==> login::turn_of(s, AnswerView::Seen(seen)) == TurnView::Fault(
                LoginFault::OutOfStep,
            )
            &&& !plain ==> login::turn_of(s, AnswerView::Nothing) == TurnView::Fault(
                LoginFault::OutOfStep,
            )
            &&& waits || plain || s.stage is Over ==> login::turn_of(s, AnswerView::Line(line))
                == TurnView::Fault(LoginFault::OutOfStep)
        }),
{
}

/// What a turn asks for is what the next one takes: each question is answered in step.
#[verifier::spinoff_prover]
#[verifier::rlimit(60)]
pub proof fn law_questions_and_answers_are_in_step(s: Login, a: AnswerView)
    ensures
        login::turn_of(s, a) matches TurnView::Go(t, _, ask) ==> {
            let waits = t.stage is Arrived || t.stage is Clip;
            let plain = t.stage is Start || t.stage is Overview || t.stage is Drags || t.stage is Burst
                || t.stage is Font || t.stage is Snap;
            &&& waits <==> ask is Within
            &&& plain <==> ask is Nothing
            &&& t.stage is Over <==> ask is Over
        },
{
}

/// A transcript passes exactly where the terminal was resized and no resize lost a line, its grid grew
/// in both directions, both windows that the shell closes were asked, the modal was dismissed, the
/// terminal's shell ended with it, the button's window was not asked through the shell, and the two
/// sessions ran beside each other.
#[verifier::spinoff_prover]
#[verifier::rlimit(60)]
pub proof fn law_a_transcript_passes_where_nothing_is_missing(
    t: Seq<char>,
    rs: Seq<(u32, u32, u32)>,
    grid: Option<(u32, u32)>,
    s: Login,
)
    ensures
        login::after_fault(t, rs, grid, s) is None <==> {
            &&& rs.len() > 0
            &&& forall|i: int| 0 <= i < rs.len() ==> (#[trigger] rs[i]).0 == rs[i].1 + rs[i].2
            &&& grid is Some && (grid->0).0 > 80 && (grid->0).1 > 24
            &&& text::contains(
                t,
                "desktop-shell: "@ + ("asked window "@ + number::numeral(s.edit.id as nat, 10)
                    + " to close"@),
            )
            &&& text::contains(
                t,
                "desktop-shell: "@ + ("asked window "@ + number::numeral(s.first as nat, 10)
                    + " to close"@),
            )
            &&& text::contains(t, "compositor: dismissed win="@)
            &&& text::contains(t, "nxsh: terminal closed"@)
            &&& !text::contains(
                t,
                "asked window "@ + number::numeral(s.term.id as nat, 10) + " to close"@,
            )
            &&& transcript::sessions_fault(t) is None
        },
{
    lemma_losses(rs);
}

/// A loss that is reported is one of the resizes: the first whose lines do not add up.
#[verifier::spinoff_prover]
#[verifier::rlimit(60)]
pub proof fn law_a_reported_loss_is_the_first(
    t: Seq<char>,
    rs: Seq<(u32, u32, u32)>,
    grid: Option<(u32, u32)>,
    s: Login,
)
    ensures
        login::after_fault(t, rs, grid, s) matches Some(AfterFault::LostLines(before, left, gone)) ==> {
            &&& left + gone != before
            &&& exists|i: int|
                0 <= i < rs.len() && #[trigger] rs[i] == (before, left, gone) && forall|j: int|
                    0 <= j < i ==> (#[trigger] rs[j]).0 == rs[j].1 + rs[j].2
        },
{
    lemma_losses(rs);
}

proof fn lemma_losses(rs: Seq<(u32, u32, u32)>)
    ensures
        match login::first_loss(rs) {
            None => forall|i: int| 0 <= i < rs.len() ==> (#[trigger] rs[i]).0 == rs[i].1 + rs[i].2,
            Some(l) => exists|i: int|
                0 <= i < rs.len() && #[trigger] rs[i] == l && l.0 != l.1 + l.2 && forall|j: int|
                    0 <= j < i ==> (#[trigger] rs[j]).0 == rs[j].1 + rs[j].2,
        },
    decreases rs.len(),
{
    if rs.len() > 0 {
        let front = rs.drop_last();
        lemma_losses(front);
        match login::first_loss(front) {
            Some(l) => {
                let i = choose|i: int|
                    0 <= i < front.len() && #[trigger] front[i] == l && l.0 != l.1 + l.2 && forall|j: int|
                        0 <= j < i ==> (#[trigger] front[j]).0 == front[j].1 + front[j].2;
                assert(rs[i] == l);
                assert forall|j: int| 0 <= j < i implies (#[trigger] rs[j]).0 == rs[j].1 + rs[j].2 by {
                    assert(rs[j] == front[j]);
                }
            },
            None => {
                assert forall|j: int| 0 <= j < rs.len() - 1 implies (#[trigger] rs[j]).0 == rs[j].1
                    + rs[j].2 by {
                    assert(rs[j] == front[j]);
                }
                assert(rs[rs.len() - 1] == rs.last());
            },
        }
    }
}

} // verus!
