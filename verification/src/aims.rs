//! What the graphical login aims at: where on the screen its clicks and its drags land, by what the
//! shell, the windows and the dialogs draw there.

use vstd::prelude::*;

use crate::login;
use crate::login::Login;
use crate::login::TurnView;
use crate::number;
use crate::placement;
use crate::script::ActView;
use crate::script::AnswerView;
use crate::shots;

verus! {

/// The act is a click inside the rectangle.
pub open spec fn hits(a: ActView, x: int, y: int, w: int, h: int) -> bool {
    a matches ActView::Click(cx, cy) && x <= cx < x + w && y <= cy < y + h
}

/// The act is a click on the button that is the `k`th from the right, counted from zero, in the
/// title bar of a window: bar and buttons are 26 pixels, and close, maximise and minimise follow each
/// other from the right.
pub open spec fn hits_button(a: ActView, x: int, y: int, w: int, k: int) -> bool {
    hits(a, x + w - 26 * (k + 1), y, 26, 26)
}

/// How far the pointer is moved by the acts from `i` up to `j`.
pub open spec fn travel(acts: Seq<ActView>, i: int, j: int) -> (int, int)
    decreases j - i,
{
    if i >= j {
        (0, 0)
    } else {
        let front = travel(acts, i, j - 1);
        match acts[j - 1] {
            ActView::Motion(x, y) => (front.0 + x, front.1 + y),
            _ => front,
        }
    }
}

/// Act `i` and act `j` say where the pointer is, and the second is where the motions between them
/// take it from the first.
pub open spec fn drags(acts: Seq<ActView>, i: int, j: int) -> bool {
    &&& 0 <= i < j < acts.len()
    &&& acts[i] matches ActView::At(x, y)
    &&& acts[j] matches ActView::At(u, v)
    &&& (u, v) == (x + travel(acts, i, j).0, y + travel(acts, i, j).1)
}

/// The file is renamed through the third of the four rows that share the menu's height inside its
/// frame, and the click lies in the menu.
#[verifier::spinoff_prover]
#[verifier::rlimit(60)]
pub proof fn law_rename_is_the_third_row(s: Login, line: Seq<char>)
    requires
        s.stage is Popup,
        placement::menu_popup(line) matches Some(p) && 10 <= p.4 <= i32::MAX,
    ensures
        login::turn_of(s, AnswerView::Line(line)) matches TurnView::Go(_, acts, _) && {
            let p = placement::menu_popup(line)->0;
            let row = (p.4 - 6) / 4;
            &&& row > 0
            &&& acts.len() > 0
            &&& hits(acts[0], p.1 + 3, p.2 + 3 + 2 * row, 27, row)
        },
{
    reveal(login::popup_acts);
}

/// The terminal's own buttons do what is then waited for: the second from the right maximises it, and
/// restores it in the work area, and the third minimises it.
#[verifier::spinoff_prover]
#[verifier::rlimit(60)]
pub proof fn law_the_terminals_buttons_are_hit(s: Login, line: Seq<char>)
    requires
        s.stage is Sized,
        placement::geometry(line) matches Some(g) && g.0 <= i32::MAX,
        s.work.w <= i32::MAX,
    ensures
        login::turn_of(s, AnswerView::Line(line)) matches TurnView::Go(t, acts, _) && {
            let g = placement::geometry(line)->0;
            let (x, y) = (s.term.x as int, s.term.y as int);
            &&& acts.len() == 36
            &&& hits_button(acts[1], x, y, g.0 as int, 1)
            &&& acts[2] == ActView::Expect("nxterm: asked the shell for window state 2"@)
            &&& hits_button(acts[7], s.work.x as int, s.work.y as int, s.work.w as int, 1)
            &&& acts[8] == ActView::Expect("nxterm: asked the shell for window state 0"@)
            &&& hits_button(acts[12], x, y, g.0 as int, 2)
            &&& acts[13] == ActView::Expect("nxterm: asked the shell for window state 1"@)
            &&& hits_button(acts[18], x, y, g.0 as int, 2)
            &&& acts[19] == ActView::Expect("nxterm: asked the shell for window state 1"@)
        },
{
    reveal(login::sized_acts);
}

/// The terminal is moved by its title bar as far as the pointer is, and its button is then hit where
/// it has gone.
#[verifier::spinoff_prover]
#[verifier::rlimit(60)]
pub proof fn law_the_terminal_moves_with_the_pointer(s: Login, line: Seq<char>)
    requires
        s.stage is Sticky,
        login::names_window(line, s.wallpaper),
        s.term.w <= i32::MAX,
    ensures
        login::turn_of(s, AnswerView::Line(line)) matches TurnView::Go(_, acts, _) && {
            let d = travel(acts, 23, 31);
            let (x, y) = (s.term.x + d.0, s.term.y + d.1);
            &&& acts.len() == 40
            &&& acts[22] matches ActView::MoveTo(u, v) && acts[23] == ActView::At(u, v) && s.term.y
                <= v < s.term.y + 26
            &&& drags(acts, 23, 31)
            &&& acts[24] == ActView::Button("left"@, true)
            &&& acts[30] == ActView::Button("left"@, false)
            &&& d.0 != 0 && d.1 != 0
            &&& acts[32] == ActView::Expect(
                "desktop-shell: window "@ + number::written(s.term.id as int) + " geometry "@
                    + number::written(x) + ","@ + number::written(y) + " "@,
            )
            &&& hits_button(acts[34], x, y, s.term.w as int, 1)
            &&& acts[35] == ActView::Expect("nxterm: asked the shell for window state 2"@)
        },
{
    reveal(login::sticky_acts);
    reveal_with_fuel(travel, 10);
}

/// The terminal that fills the work area is dragged smaller by its corner, by as much as the pointer
/// is moved; then moved by its title bar, out of the zone that it was dragged through; and then to the
/// left edge, where it takes the left half.
#[verifier::spinoff_prover]
#[verifier::rlimit(60)]
pub proof fn law_the_terminal_follows_its_drags(s: Login)
    requires
        s.stage is Drags,
        208 <= s.work.w <= i32::MAX,
        208 <= s.work.h <= i32::MAX,
    ensures
        login::turn_of(s, AnswerView::Nothing) matches TurnView::Go(_, acts, _) && {
            let (x, y) = (s.work.x as int, s.work.y as int);
            let small = travel(acts, 1, 9);
            let (w, h) = (s.work.w + small.0, s.work.h + small.1);
            let moved = travel(acts, 16, 32);
            &&& acts.len() == 59
            &&& acts[0] matches ActView::MoveTo(u, v) && acts[1] == ActView::At(u, v) && x + s.work.w
                - 16 <= u < x + s.work.w && y + s.work.h - 16 <= v < y + s.work.h
            &&& drags(acts, 1, 9)
            &&& small.0 < 0 && small.1 < 0
            &&& acts[13] == ActView::Expect(
                "desktop-shell: window "@ + number::written(s.term.id as int) + " geometry "@
                    + number::written(x) + ","@ + number::written(y) + " "@ + number::written(w)
                    + "x"@ + number::written(h),
            )
            &&& acts[15] matches ActView::MoveTo(u, v) && acts[16] == ActView::At(u, v) && y <= v
                < y + 26
            &&& drags(acts, 16, 32)
            &&& acts[33] == ActView::Expect(
                "desktop-shell: window "@ + number::written(s.term.id as int) + " geometry "@
                    + number::written(x + moved.0) + ","@ + number::written(y + moved.1) + " "@
                    + number::written(w) + "x"@ + number::written(h),
            )
            &&& acts[35] matches ActView::MoveTo(u, v) && acts[36] == ActView::At(u, v) && y
                + moved.1 <= v < y + moved.1 + 26
            &&& drags(acts, 36, 54)
            &&& acts[54] matches ActView::At(u, _) && 0 <= u < 16
        },
{
    reveal(login::drags_acts);
    reveal_with_fuel(travel, 25);
}

/// The terminal in the left half of the work area is closed by the first button of its own title bar,
/// and the burst of motions before it ends where its motions take it from the corner of the screen.
#[verifier::spinoff_prover]
#[verifier::rlimit(60)]
pub proof fn law_the_burst_arrives_and_the_terminal_closes(s: Login, t: Login)
    requires
        s.stage is Burst,
        t.stage is Arrived,
        t.work.w >= 52,
    ensures
        login::turn_of(s, AnswerView::Nothing) matches TurnView::Go(_, burst, _) && {
            &&& login::turn_of(t, AnswerView::Seen(true)) matches TurnView::Go(_, acts, _)
            &&& burst.len() == 147
            &&& burst[20] matches ActView::At(x, y)
            &&& acts.len() == 20
            &&& acts[0] == ActView::At(x + travel(burst, 21, 147).0, y + travel(burst, 21, 147).1)
            &&& hits_button(acts[4], t.work.x as int, t.work.y as int, t.work.w as int / 2, 0)
            &&& acts[5] == ActView::Expect("nxterm: closing"@)
        },
{
    reveal(login::burst_acts);
    reveal(login::arrived_acts);
    let burst = login::burst_acts();
    assert(burst[20] == ActView::At(1279, 799));
    assert forall|k: int| 23 <= k < 143 implies burst[k] == ActView::Motion(-6, -3) by {}
    reveal_with_fuel(travel, 5);
    assert(travel(burst, 21, 23) == (0int, 0int));
    lemma_steady(burst, 21, 23, 143, -6, -3);
    assert(travel(burst, 21, 147) == travel(burst, 21, 143));
}

proof fn lemma_steady(acts: Seq<ActView>, i: int, j: int, k: int, dx: int, dy: int)
    requires
        i <= j <= k,
        forall|n: int| j <= n < k ==> acts[n] == ActView::Motion(dx, dy),
    ensures
        travel(acts, i, k) == (travel(acts, i, j).0 + (k - j) * dx, travel(acts, i, j).1 + (k - j)
            * dy),
    decreases k - j,
{
    if j < k {
        lemma_steady(acts, i, j, k - 1, dx, dy);
        assert((k - j) * dx == (k - 1 - j) * dx + dx) by (nonlinear_arith);
        assert((k - j) * dy == (k - 1 - j) * dy + dy) by (nonlinear_arith);
        assert(acts[k - 1] == ActView::Motion(dx, dy));
    } else {
        assert((k - j) * dx == 0 && (k - j) * dy == 0) by (nonlinear_arith)
            requires
                k == j,
        ;
    }
}

/// The editor is dragged by its title bar, a file is dragged out of the second row of the browser's
/// listing, and it is dropped inside the editor, which has the right half of the work area.
#[verifier::spinoff_prover]
#[verifier::rlimit(60)]
pub proof fn law_the_file_is_dropped_on_the_editor(s: Login)
    requires
        s.stage is Snap,
        4 <= s.work.w <= i32::MAX,
        4 <= s.work.h <= i32::MAX,
        4 <= s.edit.w <= i32::MAX,
    ensures
        login::turn_of(s, AnswerView::Nothing) matches TurnView::Go(_, acts, _) && {
            let half = s.work.w as int / 2;
            &&& acts.len() == 48
            &&& acts[0] matches ActView::MoveTo(u, v) && acts[1] == ActView::At(u, v) && s.edit.x
                <= u < s.edit.x + s.edit.w && s.edit.y <= v < s.edit.y + 26
            &&& acts[18] == ActView::Expect(
                "desktop-shell: drop window "@ + number::written(s.edit.id as int) + " to "@
                    + number::written(s.work.x + half) + ","@ + number::written(s.work.y as int)
                    + " "@ + number::written(half) + "x"@ + number::written(s.work.h as int),
            )
            &&& acts[28] matches ActView::MoveTo(u, v) && acts[29] == ActView::At(u, v) && s.files.y
                + 26 + 24 + 24 + 24 + 20 <= v < s.files.y + 26 + 24 + 24 + 24 + 20 + 20
            &&& drags(acts, 29, 39)
            &&& acts[40] matches ActView::MoveTo(u, v) && acts[42] == ActView::At(u, v) && s.work.x
                + half <= u < s.work.x + s.work.w && s.work.y <= v < s.work.y + s.work.h
            &&& acts[41] == ActView::Button("left"@, false)
            &&& acts[43] == ActView::Expect(
                "compositor: drop win="@ + number::written(s.edit.id as int) + " on=document"@,
            )
        },
{
    reveal(login::snap_acts);
    reveal_with_fuel(travel, 12);
}

/// The first tab of the editor is hit in its strip, and the browser's File menu in its bar.
#[verifier::spinoff_prover]
#[verifier::rlimit(60)]
pub proof fn law_the_tab_and_the_menu_are_hit(s: Login, t: Login, line: Seq<char>)
    requires
        s.stage is Tab,
        crate::text::contains(line, "other.txt"@),
        t.stage is Clip,
    ensures
        login::turn_of(s, AnswerView::Line(line)) matches TurnView::Go(_, acts, _) && acts.len()
            == 2 && hits(acts[0], s.work.x + s.work.w as int / 2 + 4, s.work.y + 27, 80, 24),
        login::turn_of(t, AnswerView::Seen(true)) matches TurnView::Go(_, acts, _) && acts.len()
            == 10 && hits(acts[8], t.files.x + 1, t.files.y + 27, 40, 24) && acts[9]
            == ActView::Expect("nxfiles: menu popup "@),
{
    reveal(login::tab_acts);
    reveal(login::clip_acts);
}

/// The question's answers: `keep editing` is in its right half and `discard` in its left, both in its
/// lower part, and each is followed by what it does.
#[verifier::spinoff_prover]
#[verifier::rlimit(60)]
pub proof fn law_the_questions_buttons_are_hit(
    s: Login,
    t: Login,
    u: Login,
    line: Seq<char>,
)
    requires
        s.stage is Dialog,
        t.stage is Second,
        u.stage is Asked,
        placement::dialog_placement(line) matches Some(d) && login::question_fault(s, d) is None,
    ensures
        ({
            let d = placement::dialog_placement(line)->0;
            let (x, y) = (d.2 as int, d.3 as int);
            &&& login::turn_of(s, AnswerView::Line(line)) matches TurnView::Go(_, kept, _)
            &&& login::turn_of(t, AnswerView::Line(line)) matches TurnView::Go(_, gone, _)
            &&& login::turn_of(u, AnswerView::Line(line)) matches TurnView::Go(_, again, _)
            &&& kept.len() == 7 && hits(kept[1], x + d.4 as int / 2, y + d.5 as int / 2, 170, 66)
            &&& kept[2] == ActView::Expect("nxedit: close cancelled, still editing"@)
            &&& hits_button(kept[4], s.blank.x as int, s.blank.y as int, 560, 0)
            &&& gone.len() == 4 && hits(gone[0], x, y + d.5 as int / 2, 170, 66)
            &&& gone[1] == ActView::Expect("nxedit: discarding the unsaved buffer"@)
            &&& again.len() == 11 && hits(again[1], x + d.4 as int / 2, y + d.5 as int / 2, 170, 66)
            &&& again[2] == ActView::Expect("nxedit: close cancelled, still editing"@)
        }),
{
    reveal(login::kept_acts);
    reveal(login::discard_acts);
    reveal(login::insist_acts);
}

/// A question that passes is in the middle of the editor that asks it, wherever the work area has
/// room for it there.
#[verifier::spinoff_prover]
#[verifier::rlimit(60)]
pub proof fn law_the_question_is_centred(s: Login, d: (u32, u32, i32, i32, u32, u32))
    requires
        login::question_fault(s, d) is None,
    ensures
        d.1 == s.blank.id,
        s.work.x <= s.blank.x + 110 && s.blank.x + 450 <= s.work.x + s.work.w ==> 2 * d.2 + d.4
            == 2 * s.blank.x + 560,
        s.work.y <= s.blank.y + 144 && s.blank.y + 276 <= s.work.y + s.work.h ==> 2 * d.3 + d.5
            == 2 * s.blank.y + 420,
{
}

/// The editor is asked to close at its own entry of the task bar: entries are 180 pixels wide and
/// follow each other from the left edge, in a bar of 24 pixels at the bottom.
#[verifier::spinoff_prover]
#[verifier::rlimit(60)]
pub proof fn law_the_editors_entry_is_hit(s: Login, line: Seq<char>, t: Login, answer: Seq<char>)
    requires
        s.stage is Closing,
        placement::slot(line, s.blank.id) is None,
        placement::slot(line, s.edit.id) matches Some(k) && 0 <= k < 0x100_0000,
        t.stage is Asked,
        t.slot == placement::slot(line, s.edit.id)->0,
        placement::dialog_placement(answer) is Some,
    ensures
        ({
            let k = placement::slot(line, s.edit.id)->0;
            &&& login::turn_of(s, AnswerView::Line(line)) matches TurnView::Go(n, acts, _)
            &&& n.slot == k
            &&& acts.len() == 8
            &&& acts[4] matches ActView::MiddleClick(x, y) && 180 * k <= x < 180 * (k + 1) && 776
                <= y < 800
            &&& login::turn_of(t, AnswerView::Line(answer)) matches TurnView::Go(_, again, _)
            &&& again.len() == 11
            &&& again[4] == acts[4]
            &&& again[8] == acts[4]
        }),
{
    reveal(login::closing_acts);
    reveal(login::insist_acts);
}

/// What is known of a session stays known: a turn changes the numbers that its answer tells and no
/// others.
#[verifier::spinoff_prover]
#[verifier::rlimit(60)]
pub proof fn law_what_is_known_stays_known(s: Login, a: AnswerView)
    ensures
        login::turn_of(s, a) matches TurnView::Go(t, _, _) ==> {
            &&& s.stage is Theme || t.px == s.px
            &&& s.stage is Wallpaper || t.wallpaper == s.wallpaper
            &&& s.stage is WorkArea || (t.work == s.work && t.screen_w == s.screen_w && t.screen_h
                == s.screen_h)
            &&& s.stage is Placed || t.first == s.first
            &&& s.stage is Placed || s.stage is Replaced || (t.term.id == s.term.id && t.term.x
                == s.term.x && t.term.y == s.term.y)
            &&& s.stage is Files || t.files == s.files
            &&& s.stage is Edit || t.edit == s.edit
            &&& s.stage is Blank || t.blank == s.blank
            &&& s.stage is Closing || t.slot == s.slot
        },
{
}

/// A work area is taken only where it is lower than the screen, with the sizes that its line gives.
#[verifier::spinoff_prover]
#[verifier::rlimit(60)]
pub proof fn law_the_bars_take_their_room(s: Login, line: Seq<char>)
    requires
        s.stage is WorkArea,
        placement::work_area(line) is Some,
    ensures
        ({
            let a = placement::work_area(line)->0;
            match login::turn_of(s, AnswerView::Line(line)) {
                TurnView::Go(t, _, _) => a.3 < a.5 && t.work.x == a.0 && t.work.y == a.1 && t.work.w
                    == a.2 && t.work.h == a.3 && t.screen_w == a.4 && t.screen_h == a.5,
                TurnView::Fault(_) => a.3 >= a.5,
            }
        }),
{
}

/// A window's rectangle as the shell reports it.
pub open spec fn reported(x: int, y: int, w: int, h: int) -> Seq<char> {
    number::written(x) + ","@ + number::written(y) + " "@ + number::written(w) + "x"@ + number::written(h)
}

/// What is waited for is a text in front of the number of a window, one behind it, and a rectangle.
pub open spec fn waits_for(a: ActView, before: Seq<char>, id: u32, behind: Seq<char>, x: i32, y: i32, w: u32, h: u32) -> bool {
    a == ActView::Expect(
        before + number::written(id as int) + behind + number::written(x as int) + ","@
            + number::written(y as int) + " "@ + number::written(w as int) + "x"@ + number::written(
            h as int,
        ),
    )
}

/// The terminal's own report of a new size.
pub open spec fn waits_for_size(a: ActView, w: u32, h: u32) -> bool {
    a == ActView::Expect(
        "nxterm: resized to "@ + number::written(w as int) + "x"@ + number::written(h as int)
            + ", grid "@,
    )
}

/// A maximised terminal has to report the work area itself, as the shell's decision, as its own new
/// size and as its geometry; restored, it has to report the size that it had.
#[verifier::spinoff_prover]
#[verifier::rlimit(40)]
pub proof fn law_a_maximised_terminal_takes_the_work_area(s: Login, line: Seq<char>)
    requires
        s.stage is Sized,
        placement::geometry(line) is Some,
    ensures
        login::turn_of(s, AnswerView::Line(line)) matches TurnView::Go(_, acts, _) && {
            let g = placement::geometry(line)->0;
            let id = number::written(s.term.id as int);
            let a = s.work;
            &&& waits_for(
                acts[3],
                "desktop-shell: maximize window "@,
                s.term.id,
                " to "@,
                a.x,
                a.y,
                a.w,
                a.h,
            )
            &&& waits_for_size(acts[5], a.w, a.h)
            &&& waits_for(
                acts[6],
                "desktop-shell: window "@,
                s.term.id,
                " geometry "@,
                a.x,
                a.y,
                a.w,
                a.h,
            )
            &&& acts[9] == ActView::Expect("desktop-shell: restore window "@ + id + " to "@)
            &&& waits_for_size(acts[10], g.0, g.1)
            &&& acts[14] == ActView::Expect("desktop-shell: client asked to minimize window "@ + id)
            &&& acts[25] == ActView::Expect("compositor: asked window "@ + id + " to close"@)
        },
{
    reveal(login::sized_acts);
}

/// So does one that is maximised after it was moved.
#[verifier::spinoff_prover]
#[verifier::rlimit(40)]
pub proof fn law_a_moved_terminal_takes_the_work_area(t: Login, press: Seq<char>)
    requires
        t.stage is Sticky,
        login::names_window(press, t.wallpaper),
    ensures
        login::turn_of(t, AnswerView::Line(press)) matches TurnView::Go(_, acts, _) && {
            let a = t.work;
            &&& waits_for(
                acts[36],
                "desktop-shell: maximize window "@,
                t.term.id,
                " to "@,
                a.x,
                a.y,
                a.w,
                a.h,
            )
            &&& waits_for(
                acts[38],
                "desktop-shell: window "@,
                t.term.id,
                " geometry "@,
                a.x,
                a.y,
                a.w,
                a.h,
            )
        },
{
    reveal(login::sticky_acts);
}

/// A terminal that is dragged smaller has to report the work area less what the pointer was moved by,
/// and one that is dropped at the left edge the left half of the work area, each time as the shell's
/// decision, as its own new size and as its geometry.
#[verifier::spinoff_prover]
#[verifier::rlimit(60)]
pub proof fn law_a_dragged_terminal_reports_its_new_size(s: Login)
    requires
        s.stage is Drags,
        208 <= s.work.w <= i32::MAX,
        208 <= s.work.h <= i32::MAX,
    ensures
        login::turn_of(s, AnswerView::Nothing) matches TurnView::Go(_, acts, _) && {
            let (x, y) = (s.work.x as int, s.work.y as int);
            let id = number::written(s.term.id as int);
            let small = travel(acts, 1, 9);
            let (w, h) = (s.work.w + small.0, s.work.h + small.1);
            let half = s.work.w as int / 2;
            &&& acts[10] matches ActView::Expect(e) && e =~= "compositor: interactive resize of window "@
                + id + " ended at "@ + reported(x, y, w, h)
            &&& acts[11] matches ActView::Expect(e) && e =~= "desktop-shell: drop window "@ + id
                + " to "@ + reported(x, y, w, h)
            &&& acts[12] matches ActView::Expect(e) && e =~= "nxterm: resized to "@ + number::written(w)
                + "x"@ + number::written(h) + ", grid "@
            &&& acts[55] matches ActView::Expect(e) && e =~= "desktop-shell: drop window "@ + id
                + " to "@ + reported(x, y, half, s.work.h as int)
            &&& acts[56] matches ActView::Expect(e) && e =~= "nxterm: resized to "@ + number::written(
                half,
            ) + "x"@ + number::written(s.work.h as int) + ", grid "@
            &&& acts[57] matches ActView::Expect(e) && e =~= "desktop-shell: window "@ + id
                + " geometry "@ + reported(x, y, half, s.work.h as int)
        },
{
    reveal(login::drags_acts);
    reveal_with_fuel(travel, 10);
}

/// The editor without a file is closed by its own button, and what was copied is pasted into the
/// terminal's grid, below its title bar.
#[verifier::spinoff_prover]
#[verifier::rlimit(40)]
pub proof fn law_the_placed_windows_are_hit(s: Login, line: Seq<char>)
    requires
        s.stage is Blank || s.stage is Paste,
        placement::placement(line) is Some,
    ensures
        login::turn_of(s, AnswerView::Line(line)) matches TurnView::Go(_, acts, _) && {
            let p = placement::placement(line)->0;
            &&& s.stage is Blank ==> acts.len() == 25 && hits_button(
                acts[22],
                p.1 as int,
                p.2 as int,
                560,
                0,
            )
            &&& s.stage is Paste ==> acts.len() == 22 && hits(acts[0], p.1 + 1, p.2 + 26, 560, 340)
        },
{
    reveal(login::blank_acts);
    reveal(login::paste_acts);
}

/// The editor in the right half of the work area is focused there before it is asked to close.
#[verifier::spinoff_prover]
#[verifier::rlimit(40)]
pub proof fn law_the_right_half_is_focused(c: Login, list: Seq<char>)
    requires
        c.stage is Closing,
        placement::slot(list, c.blank.id) is None,
        placement::slot(list, c.edit.id) is Some,
        8 <= c.work.w < 0x2000_0000,
        8 <= c.work.h <= i32::MAX,
    ensures
        login::turn_of(c, AnswerView::Line(list)) matches TurnView::Go(_, acts, _) && {
            &&& hits(
                acts[1],
                c.work.x + c.work.w as int / 2,
                c.work.y as int,
                c.work.w as int / 2,
                c.work.h as int,
            )
            &&& acts[5] == ActView::Expect(
                "compositor: asked window "@ + number::written(c.edit.id as int) + " to close"@,
            )
        },
{
    reveal(login::closing_acts);
}

/// The browser has to report the font that the theme gave the session.
#[verifier::spinoff_prover]
#[verifier::rlimit(40)]
pub proof fn law_the_browser_has_the_sessions_font(a: Login)
    requires
        a.stage is Arrived,
    ensures
        login::turn_of(a, AnswerView::Seen(true)) matches TurnView::Go(_, acts, _) && acts[19]
            == ActView::Expect("nxfiles: theme font_px "@ + number::written(a.px as int)),
{
    reveal(login::arrived_acts);
}

/// The launcher is opened in the top bar, at its left, and the overview in the bottom bar, at its right,
/// whether it is a login that is driven or pictures that are taken.
#[verifier::spinoff_prover]
#[verifier::rlimit(60)]
pub proof fn law_the_bars_are_hit(s: Login, line: Seq<char>)
    requires
        s.stage is WorkArea,
        placement::work_area(line) matches Some(a) && a.3 < a.5,
    ensures
        login::turn_of(s, AnswerView::Line(line)) matches TurnView::Go(_, acts, _) && acts.len() == 12
            && hits(acts[4], 0, 0, 120, 24) && acts[5] == ActView::Expect(
            "desktop-shell: applications modal open"@,
        ),
        hits(shots::apps_acts()[0], 0, 0, 120, 24),
        shots::second_modal_acts()[2] == shots::apps_acts()[0],
        shots::overview_acts()[0] matches ActView::MoveTo(x, y) && 1160 <= x < 1280 && 776 <= y < 800
            && shots::overview_acts()[4] == ActView::At(x, y),
        shots::overview_acts()[1] == ActView::Button("left"@, true),
        shots::overview_acts()[2] == ActView::Button("left"@, false),
{
    reveal(login::work_acts);
    reveal(shots::apps_acts);
    reveal(shots::second_modal_acts);
    reveal(shots::overview_acts);
}

} // verus!
