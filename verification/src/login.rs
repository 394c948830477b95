//! The login gate: a session is logged in to, used and watched, one turn at a time. Each turn takes
//! what the machine answered and gives the acts that come next.

use vstd::prelude::*;

use crate::number;
use crate::placement;
use crate::script;
use crate::script::Act;
use crate::script::ActView;
use crate::script::Answer;
use crate::script::AnswerView;
use crate::script::Ask;
use crate::script::AskView;
use crate::script::Script;
use crate::text;
use crate::transcript;
use crate::transcript::SessionsFault;

verus! {

/// The part of the screen that windows may take.
#[derive(Debug, Clone, Copy, PartialEq, Eq, Structural)]
pub struct Area {
    pub x: i32,
    pub y: i32,
    pub w: u32,
    pub h: u32,
}

/// A window as the shell tells of it.
#[derive(Debug, Clone, Copy, PartialEq, Eq, Structural)]
pub struct Window {
    pub id: u32,
    pub x: i32,
    pub y: i32,
    pub w: u32,
    pub h: u32,
}

/// What the next answer is about.
#[derive(Debug, Clone, Copy, PartialEq, Eq, Structural)]
pub enum Stage {
    Start,
    Theme,
    Wallpaper,
    WorkArea,
    Placed,
    Sized,
    Replaced,
    Resized,
    Overview,
    Sticky,
    Drags,
    Burst,
    Arrived,
    Font,
    Listed,
    Files,
    Edit,
    Snap,
    Tab,
    Switched,
    Paste,
    Clip,
    Popup,
    Blank,
    Dialog,
    Second,
    Closing,
    Asked,
    Over,
}

/// What is known of the session.
#[derive(Debug, Clone, Copy, PartialEq, Eq, Structural)]
pub struct Login {
    pub stage: Stage,
    /// The font size of the session's theme.
    pub px: u32,
    /// The wallpaper's window.
    pub wallpaper: u32,
    pub work: Area,
    pub screen_w: u32,
    pub screen_h: u32,
    /// The first terminal's window.
    pub first: u32,
    pub term: Window,
    pub files: Window,
    pub edit: Window,
    /// The editor that was launched without a file.
    pub blank: Window,
    /// The taskbar entry of the first editor.
    pub slot: u32,
    pub tries: u32,
}

/// Why the run fails.
#[derive(Debug, Clone, Copy, PartialEq, Eq, Structural)]
pub enum LoginFault {
    /// The answer is not what was asked for.
    OutOfStep,
    /// The theme's line has no font size.
    NoFont,
    /// The wallpaper's line has no window.
    NoWallpaper,
    /// The work area's line cannot be read.
    NoWorkArea,
    /// The work area is as tall as the screen.
    WholeScreen,
    /// A placement cannot be read.
    NoPlacement,
    /// A geometry cannot be read.
    NoGeometry,
    /// The wallpaper is not on every desktop.
    NotSticky,
    /// The burst did not arrive.
    Drifted,
    /// The session's font is not the one that was staged.
    WrongFont(u32),
    /// The dropped file is not current.
    NotCurrent,
    /// The first tab is not current.
    NotSwitched,
    /// What was pasted never showed.
    NoClip,
    /// The menu's placement cannot be read.
    NoPopup,
    /// A dialog's placement cannot be read.
    NoDialog,
    /// The dialog belongs to another window.
    OtherParent(u32),
    /// The dialog is not as large as it is published to be.
    OtherSize(u32, u32),
    /// The work area has no room for the dialog.
    NoRoom,
    /// The dialog is elsewhere: where it is, and where it belongs.
    Elsewhere(i32, i32, i64, i64),
    /// The closed window is still listed.
    StillListed,
    /// The editor is not listed.
    NotListed,
}

/// The font size that the image stages.
pub const THEME_FONT_PX: u32 = 14;

/// A number as a word of thirty-two bits.
pub open spec fn wrapped(n: int) -> int {
    n % 0x1_0000_0000
}

fn wrapped_of(n: i64) -> (r: i64)
    requires
        -0x1_0000_0000 <= n <= 0x1_0000_0000,
    ensures
        r == wrapped(n as int),
{
    (n + 0x1_0000_0000) % 0x1_0000_0000
}

/// How tall a row of the browser's menu is, by the menu's height: four rows in a frame.
pub open spec fn row_height(h: u32) -> int {
    placement::fraction(placement::span(h) - 6, 4)
}

fn row_height_of(h: u32) -> (r: i64)
    ensures
        r == row_height(h),
        -0x1_0000_0000 <= r <= 0x1_0000_0000,
{
    placement::fraction_of(placement::span_of(h) - 6, 4)
}

/// The font size in the theme's line: what stands behind the last `font_px`.
pub open spec fn font_size(line: Seq<char>) -> Option<u32> {
    let parts = text::split(line, "font_px "@);
    if parts.len() >= 2 {
        number::u32_of(text::trim(parts.last()))
    } else {
        None
    }
}

fn read_font_size(line: &str) -> (r: Option<u32>)
    ensures
        r == font_size(line@),
{
    proof {
        reveal_strlit("font_px ");
    }
    let c = text::chars_of(line);
    let parts = text::pieces(c.as_slice(), "font_px ");
    let n: usize = parts.len();
    if n >= 2 {
        assert(text::views(parts@).last() == parts@[n - 1]@);
        number::parse_u32(text::trimmed(parts[n - 1]))
    } else {
        None
    }
}

/// The window that a line begins with.
pub open spec fn leading_id(line: Seq<char>) -> Option<u32> {
    let ws = text::words(line);
    if ws.len() > 0 {
        number::u32_of(ws[0])
    } else {
        None
    }
}

fn read_leading_id(line: &str) -> (r: Option<u32>)
    ensures
        r == leading_id(line@),
{
    let c = text::chars_of(line);
    let ws = text::words_of(c.as_slice());
    if ws.len() > 0 {
        assert(text::views(ws@)[0] == ws@[0]@);
        number::parse_u32(ws[0])
    } else {
        None
    }
}

/// The line names the window as the one that was pressed.
pub open spec fn names_window(line: Seq<char>, id: u32) -> bool {
    text::contains(line, "win="@ + number::written(id as int))
}

fn reads_window(line: &str, id: u32) -> (r: bool)
    ensures
        r == names_window(line@, id),
{
    let c = text::chars_of(line);
    let s = script::then_number(String::from_str("win="), id as i64);
    text::has_str(c.as_slice(), s.as_str())
}

fn mentions(line: &str, s: &str) -> (r: bool)
    ensures
        r == text::contains(line@, s@),
{
    let c = text::chars_of(line);
    text::has_str(c.as_slice(), s)
}

/// The size of the editor's question.
pub const CONFIRM_W: u32 = 340;

/// The size of the editor's question.
pub const CONFIRM_H: u32 = 132;

/// `v` brought between `lo` and `hi`.
pub open spec fn between(v: int, lo: int, hi: int) -> int {
    if v < lo {
        lo
    } else if v > hi {
        hi
    } else {
        v
    }
}

/// Where the editor's question belongs: centred on the editor, inside the work area.
pub open spec fn question_place(work: Area, blank: Window) -> (int, int) {
    (
        between(blank.x + 110, work.x as int, work.x + placement::span(work.w) - CONFIRM_W),
        between(blank.y + 144, work.y as int, work.y + placement::span(work.h) - CONFIRM_H),
    )
}

fn clamped(v: i64, lo: i64, hi: i64) -> (r: i64)
    ensures
        r == between(v as int, lo as int, hi as int),
{
    if v < lo {
        lo
    } else if v > hi {
        hi
    } else {
        v
    }
}

/// What is wrong with the question's placement, if anything.
pub open spec fn question_fault(s: Login, d: (u32, u32, i32, i32, u32, u32)) -> Option<LoginFault> {
    let want = question_place(s.work, s.blank);
    if d.1 != s.blank.id {
        Some(LoginFault::OtherParent(d.1))
    } else if d.4 != CONFIRM_W || d.5 != CONFIRM_H {
        Some(LoginFault::OtherSize(d.4, d.5))
    } else if placement::span(s.work.w) < CONFIRM_W || placement::span(s.work.h) < CONFIRM_H {
        Some(LoginFault::NoRoom)
    } else if d.2 != want.0 || d.3 != want.1 {
        Some(LoginFault::Elsewhere(d.2, d.3, want.0 as i64, want.1 as i64))
    } else {
        None
    }
}

/// Checks the question's placement.
pub fn check_question(s: Login, d: (u32, u32, i32, i32, u32, u32)) -> (r: Option<LoginFault>)
    ensures
        r == question_fault(s, d),
{
    let x: i64 = clamped(
        s.blank.x as i64 + 110,
        s.work.x as i64,
        s.work.x as i64 + placement::span_of(s.work.w) - 340,
    );
    let y: i64 = clamped(
        s.blank.y as i64 + 144,
        s.work.y as i64,
        s.work.y as i64 + placement::span_of(s.work.h) - 132,
    );
    if d.1 != s.blank.id {
        Some(LoginFault::OtherParent(d.1))
    } else if d.4 != CONFIRM_W || d.5 != CONFIRM_H {
        Some(LoginFault::OtherSize(d.4, d.5))
    } else if placement::span_of(s.work.w) < CONFIRM_W as i64 || placement::span_of(s.work.h)
        < CONFIRM_H as i64 {
        Some(LoginFault::NoRoom)
    } else if d.2 as i64 != x || d.3 as i64 != y {
        Some(LoginFault::Elsewhere(d.2, d.3, x, y))
    } else {
        None
    }
}

/// A question that passes lies inside the work area.
pub proof fn law_the_question_stays_in_the_work_area(s: Login, d: (u32, u32, i32, i32, u32, u32))
    requires
        question_fault(s, d) is None,
    ensures
        s.work.x <= d.2,
        d.2 + d.4 <= s.work.x + s.work.w,
        s.work.y <= d.3,
        d.3 + d.5 <= s.work.y + s.work.h,
{
}

/// The first acts: a wrong password is refused, and the right one starts a session.
#[verifier::opaque]
pub open spec fn start_acts() -> Seq<ActView> {
    seq![
        ActView::Expect("desktop-session-mgr: greeter redraw 1"@),
        ActView::Expect("desktop-session-mgr: greeter presented"@),
        ActView::Greeter("alice"@),
        ActView::Press("tab"@),
        ActView::Greeter("wrong-password"@),
        ActView::Press("ret"@),
        ActView::Expect("desktop-session-mgr: login denied"@),
        ActView::Greeter("alice"@),
        ActView::Press("tab"@),
        ActView::Greeter("correct horse battery staple"@),
        ActView::Press("ret"@),
        ActView::Expect("desktop-session-mgr: login ok -> home=/home/alice"@),
        ActView::Expect("desktop-session-mgr: session namespace built (no /dev/console)"@),
        ActView::Expect("desktop-shell: up (graphical session leader)"@),
        ActView::Expect("desktop-shell: theme "@),
    ]
}

fn start_script() -> (r: Script)
    ensures
        r@ == start_acts(),
{
    reveal(start_acts);
    let mut o = Script::new();
    o.expect("desktop-session-mgr: greeter redraw 1");
    o.expect("desktop-session-mgr: greeter presented");
    o.greeter("alice");
    o.press("tab");
    o.greeter("wrong-password");
    o.press("ret");
    o.expect("desktop-session-mgr: login denied");
    o.greeter("alice");
    o.press("tab");
    o.greeter("correct horse battery staple");
    o.press("ret");
    o.expect("desktop-session-mgr: login ok -> home=/home/alice");
    o.expect("desktop-session-mgr: session namespace built (no /dev/console)");
    o.expect("desktop-shell: up (graphical session leader)");
    o.expect("desktop-shell: theme ");
    o
}

/// The acts once the theme is known: the wallpaper is drawn.
#[verifier::opaque]
pub open spec fn theme_acts(line: Seq<char>) -> Seq<ActView> {
    seq![
        ActView::Say("  ok: the shell resolved a theme ("@ + line + ")"@),
        ActView::Expect("desktop-shell: wallpaper 1920x1200 drawn 1280x800 at 0,0 window "@),
    ]
}

fn theme_script(line: &str) -> (r: Script)
    ensures
        r@ == theme_acts(line@),
{
    reveal(theme_acts);
    let mut o = Script::new();
    let m1 = String::from_str("  ok: the shell resolved a theme (");
    let m1 = script::then_text(m1, line);
    let m1 = script::then_text(m1, ")");
    o.say(m1.as_str());
    o.expect("desktop-shell: wallpaper 1920x1200 drawn 1280x800 at 0,0 window ");
    o
}

/// The acts once the wallpaper's window is known: the shell comes up.
#[verifier::opaque]
pub open spec fn wallpaper_acts() -> Seq<ActView> {
    seq![
        ActView::Say("  ok: the guest decoded a 1920x1200 PNG and put it on screen"@),
        ActView::Expect("desktop-shell: clock "@),
        ActView::Expect("desktop-shell: serving /dev/desktop"@),
        ActView::Expect("desktop-shell: application /dev/desktop bound"@),
        ActView::Expect(
            "desktop-shell: application namespace grants new + /home, withholds manage"@,
        ),
        ActView::Expect("desktop-shell: top bar presented"@),
        ActView::Expect("desktop-shell: bottom bar presented"@),
        ActView::Expect("desktop-shell: manager channel held"@),
        ActView::Expect("desktop-shell: work area "@),
    ]
}

fn wallpaper_script() -> (r: Script)
    ensures
        r@ == wallpaper_acts(),
{
    reveal(wallpaper_acts);
    let mut o = Script::new();
    o.say("  ok: the guest decoded a 1920x1200 PNG and put it on screen");
    o.expect("desktop-shell: clock ");
    o.expect("desktop-shell: serving /dev/desktop");
    o.expect("desktop-shell: application /dev/desktop bound");
    o.expect("desktop-shell: application namespace grants new + /home, withholds manage");
    o.expect("desktop-shell: top bar presented");
    o.expect("desktop-shell: bottom bar presented");
    o.expect("desktop-shell: manager channel held");
    o.expect("desktop-shell: work area ");
    o
}

/// The acts once the work area is known: a terminal is launched.
#[verifier::opaque]
pub open spec fn work_acts(s: Login) -> Seq<ActView> {
    seq![
        ActView::Say(
            "  ok: the work area is "@ + number::written(s.work.w as int) + "x"@
                + number::written(s.work.h as int) + " of a "@ + number::written(s.screen_w as int)
                + "x"@ + number::written(s.screen_h as int) + " screen"@,
        ),
        ActView::Expect("desktop-shell: bottom bar placed at 0,776"@),
        ActView::Expect("desktop-shell: /bin lists "@),
        ActView::Expect("desktop-shell: Super+H minimizes the focused window"@),
        ActView::Click(60, 12),
        ActView::Expect("desktop-shell: applications modal open"@),
        ActView::Modal("nxterm"@),
        ActView::Press("ret"@),
        ActView::Expect(
            "desktop-shell: application namespace grants new + /home, withholds manage"@,
        ),
        ActView::Expect("desktop-shell: launched nxterm into its own namespace"@),
        ActView::Expect("desktop-shell: applications modal closed"@),
        ActView::Expect("desktop-shell: placed window "@),
    ]
}

fn work_script(s: Login) -> (r: Script)
    ensures
        r@ == work_acts(s),
{
    reveal(work_acts);
    let mut o = Script::new();
    let m1 = String::from_str("  ok: the work area is ");
    let m1 = script::then_number(m1, (s.work.w as i64));
    let m1 = script::then_text(m1, "x");
    let m1 = script::then_number(m1, (s.work.h as i64));
    let m1 = script::then_text(m1, " of a ");
    let m1 = script::then_number(m1, (s.screen_w as i64));
    let m1 = script::then_text(m1, "x");
    let m1 = script::then_number(m1, (s.screen_h as i64));
    let m1 = script::then_text(m1, " screen");
    o.say(m1.as_str());
    o.expect("desktop-shell: bottom bar placed at 0,776");
    o.expect("desktop-shell: /bin lists ");
    o.expect("desktop-shell: Super+H minimizes the focused window");
    o.click(60, 12);
    o.expect("desktop-shell: applications modal open");
    o.modal("nxterm");
    o.press("ret");
    o.expect("desktop-shell: application namespace grants new + /home, withholds manage");
    o.expect("desktop-shell: launched nxterm into its own namespace");
    o.expect("desktop-shell: applications modal closed");
    o.expect("desktop-shell: placed window ");
    o
}

/// The acts once the terminal is placed: its size is waited for.
#[verifier::opaque]
pub open spec fn placed_acts(s: Login) -> Seq<ActView> {
    seq![
        ActView::Expect(
            "desktop-shell: window "@ + number::written(s.term.id as int) + " geometry "@,
        ),
    ]
}

fn placed_script(s: Login) -> (r: Script)
    ensures
        r@ == placed_acts(s),
{
    reveal(placed_acts);
    let mut o = Script::new();
    let m1 = String::from_str("desktop-shell: window ");
    let m1 = script::then_number(m1, (s.term.id as i64));
    let m1 = script::then_text(m1, " geometry ");
    o.expect(m1.as_str());
    o
}

/// The acts once the terminal's size is known: its buttons and its taskbar entry work, and it is
/// closed and launched again.
#[verifier::opaque]
pub open spec fn sized_acts(s: Login) -> Seq<ActView> {
    seq![
        ActView::Expect("desktop-shell: window list on "@),
        ActView::Click((s.term.x as int) + placement::span(s.term.w) - 39, (s.term.y as int) + 13),
        ActView::Expect("nxterm: asked the shell for window state 2"@),
        ActView::Expect(
            "desktop-shell: maximize window "@ + number::written(s.term.id as int) + " to "@
                + number::written(s.work.x as int) + ","@ + number::written(s.work.y as int) + " "@
                + number::written(s.work.w as int) + "x"@ + number::written(s.work.h as int),
        ),
        ActView::Say("  ok: maximise asked for the work area, not the screen"@),
        ActView::Expect(
            "nxterm: resized to "@ + number::written(s.work.w as int) + "x"@
                + number::written(s.work.h as int) + ", grid "@,
        ),
        ActView::Expect(
            "desktop-shell: window "@ + number::written(s.term.id as int) + " geometry "@
                + number::written(s.work.x as int) + ","@ + number::written(s.work.y as int) + " "@
                + number::written(s.work.w as int) + "x"@ + number::written(s.work.h as int),
        ),
        ActView::Click((s.work.x as int) + placement::span(s.work.w) - 39, (s.work.y as int) + 13),
        ActView::Expect("nxterm: asked the shell for window state 0"@),
        ActView::Expect(
            "desktop-shell: restore window "@ + number::written(s.term.id as int) + " to "@,
        ),
        ActView::Expect(
            "nxterm: resized to "@ + number::written(s.term.w as int) + "x"@
                + number::written(s.term.h as int) + ", grid "@,
        ),
        ActView::Say("  ok: and the same button restored it to where it came from"@),
        ActView::Click((s.term.x as int) + placement::span(s.term.w) - 65, (s.term.y as int) + 13),
        ActView::Expect("nxterm: asked the shell for window state 1"@),
        ActView::Expect(
            "desktop-shell: client asked to minimize window "@ + number::written(s.term.id as int),
        ),
        ActView::Expect(
            "desktop-shell: window list on desktop 1 of 2 ["@ + number::written(s.term.id as int)
                + ":_ "@,
        ),
        ActView::Click(90, 788),
        ActView::Expect("desktop-shell: raised window "@),
        ActView::Click((s.term.x as int) + placement::span(s.term.w) - 65, (s.term.y as int) + 13),
        ActView::Expect("nxterm: asked the shell for window state 1"@),
        ActView::Expect(
            "desktop-shell: client asked to minimize window "@ + number::written(s.term.id as int),
        ),
        ActView::Say(
            "  ok: the minimise button still works after the taskbar restored the window"@,
        ),
        ActView::Click(90, 788),
        ActView::Expect("desktop-shell: raised window "@),
        ActView::MiddleClick(90, 788),
        ActView::Expect(
            "compositor: asked window "@ + number::written(s.term.id as int) + " to close"@,
        ),
        ActView::Expect("nxterm: asked to close, exiting"@),
        ActView::Expect("nxterm: closing"@),
        ActView::Expect("desktop-shell: window list on desktop 1 of 1 (empty)"@),
        ActView::Say("  ok: the taskbar asked, and the client closed itself"@),
        ActView::Click(60, 12),
        ActView::Expect("desktop-shell: applications modal open"@),
        ActView::Modal("nxterm"@),
        ActView::Click(60, 64),
        ActView::Expect("desktop-shell: launched nxterm into its own namespace"@),
        ActView::Expect("desktop-shell: placed window "@),
    ]
}

#[verifier::rlimit(60)]
fn sized_script(s: Login) -> (r: Script)
    ensures
        r@ == sized_acts(s),
{
    reveal(sized_acts);
    let mut o = Script::new();
    o.expect("desktop-shell: window list on ");
    o.click((s.term.x as i64) + placement::span_of(s.term.w) - 39, (s.term.y as i64) + 13);
    o.expect("nxterm: asked the shell for window state 2");
    let m1 = String::from_str("desktop-shell: maximize window ");
    let m1 = script::then_number(m1, (s.term.id as i64));
    let m1 = script::then_text(m1, " to ");
    let m1 = script::then_number(m1, (s.work.x as i64));
    let m1 = script::then_text(m1, ",");
    let m1 = script::then_number(m1, (s.work.y as i64));
    let m1 = script::then_text(m1, " ");
    let m1 = script::then_number(m1, (s.work.w as i64));
    let m1 = script::then_text(m1, "x");
    let m1 = script::then_number(m1, (s.work.h as i64));
    o.expect(m1.as_str());
    o.say("  ok: maximise asked for the work area, not the screen");
    let m2 = String::from_str("nxterm: resized to ");
    let m2 = script::then_number(m2, (s.work.w as i64));
    let m2 = script::then_text(m2, "x");
    let m2 = script::then_number(m2, (s.work.h as i64));
    let m2 = script::then_text(m2, ", grid ");
    o.expect(m2.as_str());
    let m3 = String::from_str("desktop-shell: window ");
    let m3 = script::then_number(m3, (s.term.id as i64));
    let m3 = script::then_text(m3, " geometry ");
    let m3 = script::then_number(m3, (s.work.x as i64));
    let m3 = script::then_text(m3, ",");
    let m3 = script::then_number(m3, (s.work.y as i64));
    let m3 = script::then_text(m3, " ");
    let m3 = script::then_number(m3, (s.work.w as i64));
    let m3 = script::then_text(m3, "x");
    let m3 = script::then_number(m3, (s.work.h as i64));
    o.expect(m3.as_str());
    o.click((s.work.x as i64) + placement::span_of(s.work.w) - 39, (s.work.y as i64) + 13);
    o.expect("nxterm: asked the shell for window state 0");
    let m4 = String::from_str("desktop-shell: restore window ");
    let m4 = script::then_number(m4, (s.term.id as i64));
    let m4 = script::then_text(m4, " to ");
    o.expect(m4.as_str());
    let m5 = String::from_str("nxterm: resized to ");
    let m5 = script::then_number(m5, (s.term.w as i64));
    let m5 = script::then_text(m5, "x");
    let m5 = script::then_number(m5, (s.term.h as i64));
    let m5 = script::then_text(m5, ", grid ");
    o.expect(m5.as_str());
    o.say("  ok: and the same button restored it to where it came from");
    o.click((s.term.x as i64) + placement::span_of(s.term.w) - 65, (s.term.y as i64) + 13);
    o.expect("nxterm: asked the shell for window state 1");
    let m6 = String::from_str("desktop-shell: client asked to minimize window ");
    let m6 = script::then_number(m6, (s.term.id as i64));
    o.expect(m6.as_str());
    let m7 = String::from_str("desktop-shell: window list on desktop 1 of 2 [");
    let m7 = script::then_number(m7, (s.term.id as i64));
    let m7 = script::then_text(m7, ":_ ");
    o.expect(m7.as_str());
    o.click(90, 788);
    o.expect("desktop-shell: raised window ");
    o.click((s.term.x as i64) + placement::span_of(s.term.w) - 65, (s.term.y as i64) + 13);
    o.expect("nxterm: asked the shell for window state 1");
    let m8 = String::from_str("desktop-shell: client asked to minimize window ");
    let m8 = script::then_number(m8, (s.term.id as i64));
    o.expect(m8.as_str());
    o.say("  ok: the minimise button still works after the taskbar restored the window");
    o.click(90, 788);
    o.expect("desktop-shell: raised window ");
    o.middle_click(90, 788);
    let m9 = String::from_str("compositor: asked window ");
    let m9 = script::then_number(m9, (s.term.id as i64));
    let m9 = script::then_text(m9, " to close");
    o.expect(m9.as_str());
    o.expect("nxterm: asked to close, exiting");
    o.expect("nxterm: closing");
    o.expect("desktop-shell: window list on desktop 1 of 1 (empty)");
    o.say("  ok: the taskbar asked, and the client closed itself");
    o.click(60, 12);
    o.expect("desktop-shell: applications modal open");
    o.modal("nxterm");
    o.click(60, 64);
    o.expect("desktop-shell: launched nxterm into its own namespace");
    o.expect("desktop-shell: placed window ");
    o
}

/// The acts once the second terminal is placed: its size is waited for.
#[verifier::opaque]
pub open spec fn replaced_acts(s: Login) -> Seq<ActView> {
    seq![
        ActView::Expect(
            "desktop-shell: window "@ + number::written(s.term.id as int) + " geometry "@,
        ),
    ]
}

fn replaced_script(s: Login) -> (r: Script)
    ensures
        r@ == replaced_acts(s),
{
    reveal(replaced_acts);
    let mut o = Script::new();
    let m1 = String::from_str("desktop-shell: window ");
    let m1 = script::then_number(m1, (s.term.id as i64));
    let m1 = script::then_text(m1, " geometry ");
    o.expect(m1.as_str());
    o
}

/// The acts once the second terminal's size is known: the modal is dismissed, and windows are
/// minimised and moved between desktops.
#[verifier::opaque]
pub open spec fn resized_acts() -> Seq<ActView> {
    seq![
        ActView::Press("esc"@),
        ActView::Skip,
        ActView::Click(60, 12),
        ActView::Expect("desktop-shell: applications modal open"@),
        ActView::Click(600, 788),
        ActView::Expect("desktop-shell: applications modal closed"@),
        ActView::Click(90, 788),
        ActView::Expect("desktop-shell: minimized window "@),
        ActView::Expect("desktop-shell: window list on "@),
        ActView::Expect(":_ nxterm"@),
        ActView::Click(90, 788),
        ActView::Expect("desktop-shell: raised window "@),
        ActView::Expect(":> nxterm"@),
        ActView::Chord(false, "h"@),
        ActView::Expect("desktop-shell: Super+H minimized window "@),
        ActView::Click(90, 788),
        ActView::Expect("desktop-shell: raised window "@),
        ActView::Expect(":> nxterm"@),
        ActView::Chord(false, "r"@),
        ActView::Expect("desktop-shell: naming this desktop"@),
        ActView::Press("w"@),
        ActView::Expect("desktop-shell: name so far w"@),
        ActView::Press("o"@),
        ActView::Expect("desktop-shell: name so far wo"@),
        ActView::Press("r"@),
        ActView::Expect("desktop-shell: name so far wor"@),
        ActView::Press("k"@),
        ActView::Expect("desktop-shell: name so far work"@),
        ActView::Press("ret"@),
        ActView::Expect("desktop-shell: named this desktop work"@),
        ActView::Expect("desktop-shell: window list on work of 2"@),
        ActView::Chord(true, "2"@),
        ActView::Expect("desktop-shell: moved window "@),
        ActView::Expect("desktop-shell: window list on work of 3 (empty)"@),
        ActView::Chord(false, "2"@),
        ActView::Expect("desktop-shell: switched to "@),
        ActView::Expect(":> nxterm"@),
        ActView::Chord(true, "1"@),
        ActView::Expect("desktop-shell: moved window "@),
        ActView::Expect("desktop-shell: window list on desktop 2 of 2 (empty)"@),
        ActView::Chord(false, "1"@),
        ActView::Expect("desktop-shell: switched to work"@),
    ]
}

#[verifier::rlimit(60)]
fn resized_script() -> (r: Script)
    ensures
        r@ == resized_acts(),
{
    reveal(resized_acts);
    let mut o = Script::new();
    o.press("esc");
    o.skip();
    o.click(60, 12);
    o.expect("desktop-shell: applications modal open");
    o.click(600, 788);
    o.expect("desktop-shell: applications modal closed");
    o.click(90, 788);
    o.expect("desktop-shell: minimized window ");
    o.expect("desktop-shell: window list on ");
    o.expect(":_ nxterm");
    o.click(90, 788);
    o.expect("desktop-shell: raised window ");
    o.expect(":> nxterm");
    o.chord(false, "h");
    o.expect("desktop-shell: Super+H minimized window ");
    o.click(90, 788);
    o.expect("desktop-shell: raised window ");
    o.expect(":> nxterm");
    o.chord(false, "r");
    o.expect("desktop-shell: naming this desktop");
    o.press("w");
    o.expect("desktop-shell: name so far w");
    o.press("o");
    o.expect("desktop-shell: name so far wo");
    o.press("r");
    o.expect("desktop-shell: name so far wor");
    o.press("k");
    o.expect("desktop-shell: name so far work");
    o.press("ret");
    o.expect("desktop-shell: named this desktop work");
    o.expect("desktop-shell: window list on work of 2");
    o.chord(true, "2");
    o.expect("desktop-shell: moved window ");
    o.expect("desktop-shell: window list on work of 3 (empty)");
    o.chord(false, "2");
    o.expect("desktop-shell: switched to ");
    o.expect(":> nxterm");
    o.chord(true, "1");
    o.expect("desktop-shell: moved window ");
    o.expect("desktop-shell: window list on desktop 2 of 2 (empty)");
    o.chord(false, "1");
    o.expect("desktop-shell: switched to work");
    o
}

/// The acts of the overview: a window is dragged to another desktop, the terminal names a desktop,
/// and an empty desktop is clicked.
#[verifier::opaque]
pub open spec fn overview_acts() -> Seq<ActView> {
    seq![
        ActView::Click(1200, 788),
        ActView::Expect("compositor: captured window "@),
        ActView::Expect("desktop-shell: thumbnail of window "@),
        ActView::Expect("desktop-shell: overview open, window "@),
        ActView::MoveTo(100, 100),
        ActView::At(100, 100),
        ActView::Button("left"@, true),
        ActView::Expect("desktop-shell: dragging window "@),
        ActView::MoveTo(1180, 132),
        ActView::At(1180, 132),
        ActView::Button("left"@, false),
        ActView::Expect("desktop-shell: dropped window "@),
        ActView::Expect("desktop-shell: overview closed"@),
        ActView::Expect("desktop-shell: window list on work of 3 (empty)"@),
        ActView::Chord(false, "2"@),
        ActView::Expect("desktop-shell: switched to "@),
        ActView::Expect(":> nxterm"@),
        ActView::Click(200, 200),
        ActView::Terminal("desktop"@),
        ActView::Expect("desktop-shell: served List of "@),
        ActView::Terminal("desktop name 2 cli"@),
        ActView::Expect("desktop-shell: served Name cli"@),
        ActView::Expect("desktop-shell: window list on cli of "@),
        ActView::Click(1200, 788),
        ActView::Expect("desktop-shell: overview ground is the wallpaper"@),
        ActView::Say("  ok: the overview kept the desktop's picture rather than covering it"@),
        ActView::Expect("desktop-shell: overview open, window "@),
        ActView::Press("esc"@),
        ActView::Expect("desktop-shell: overview closed"@),
        ActView::Chord(false, "3"@),
        ActView::Expect("desktop-shell: switched to "@),
        ActView::Expect("(empty)"@),
        ActView::Click(640, 400),
    ]
}

#[verifier::rlimit(60)]
fn overview_script() -> (r: Script)
    ensures
        r@ == overview_acts(),
{
    reveal(overview_acts);
    let mut o = Script::new();
    o.click(1200, 788);
    o.expect("compositor: captured window ");
    o.expect("desktop-shell: thumbnail of window ");
    o.expect("desktop-shell: overview open, window ");
    o.move_to(100, 100);
    o.at(100, 100);
    o.button("left", true);
    o.expect("desktop-shell: dragging window ");
    o.move_to(1180, 132);
    o.at(1180, 132);
    o.button("left", false);
    o.expect("desktop-shell: dropped window ");
    o.expect("desktop-shell: overview closed");
    o.expect("desktop-shell: window list on work of 3 (empty)");
    o.chord(false, "2");
    o.expect("desktop-shell: switched to ");
    o.expect(":> nxterm");
    o.click(200, 200);
    o.terminal("desktop");
    o.expect("desktop-shell: served List of ");
    o.terminal("desktop name 2 cli");
    o.expect("desktop-shell: served Name cli");
    o.expect("desktop-shell: window list on cli of ");
    o.click(1200, 788);
    o.expect("desktop-shell: overview ground is the wallpaper");
    o.say("  ok: the overview kept the desktop's picture rather than covering it");
    o.expect("desktop-shell: overview open, window ");
    o.press("esc");
    o.expect("desktop-shell: overview closed");
    o.chord(false, "3");
    o.expect("desktop-shell: switched to ");
    o.expect("(empty)");
    o.click(640, 400);
    o
}

/// The acts once the wallpaper is seen on an empty desktop: the overview follows the desktops, and
/// the terminal is moved and maximised.
#[verifier::opaque]
pub open spec fn sticky_acts(s: Login) -> Seq<ActView> {
    seq![
        ActView::Say("  ok: the wallpaper is sticky — still there on an empty desktop"@),
        ActView::Chord(false, "2"@),
        ActView::Expect("desktop-shell: switched to "@),
        ActView::Click(1200, 788),
        ActView::Expect("desktop-shell: overview open, window "@),
        ActView::Chord(false, "1"@),
        ActView::Expect("desktop-shell: switched to work"@),
        ActView::Expect("desktop-shell: overview now showing 0 on work"@),
        ActView::Click(1180, 132),
        ActView::Expect("desktop-shell: switched to cli"@),
        ActView::Expect("desktop-shell: overview now showing 1 on cli"@),
        ActView::Click(1180, 132),
        ActView::Expect("desktop-shell: overview closed"@),
        ActView::Click(1200, 788),
        ActView::Expect("desktop-shell: overview open, window "@),
        ActView::Click(600, 700),
        ActView::Expect("desktop-shell: overview closed"@),
        ActView::Click(1200, 788),
        ActView::Expect("desktop-shell: overview open, window "@),
        ActView::Click(100, 100),
        ActView::Expect("desktop-shell: overview raised window "@),
        ActView::Expect("desktop-shell: overview closed"@),
        ActView::MoveTo(100, (s.term.y as int) + 13),
        ActView::At(100, (s.term.y as int) + 13),
        ActView::Button("left"@, true),
        ActView::Motion(10, 5),
        ActView::Motion(10, 5),
        ActView::Expect("compositor: interactive move of window "@),
        ActView::Motion(10, 5),
        ActView::Motion(10, 5),
        ActView::Button("left"@, false),
        ActView::At(140, (s.term.y as int) + 33),
        ActView::Expect(
            "desktop-shell: window "@ + number::written(s.term.id as int) + " geometry "@
                + number::written((s.term.x as int) + 40) + ","@
                + number::written((s.term.y as int) + 20) + " "@,
        ),
        ActView::Say(
            "  ok: the terminal moved with its own title bar, offset by where it was grabbed"@,
        ),
        ActView::Click(
            (s.term.x as int) + 40 + placement::span(s.term.w) - 39,
            (s.term.y as int) + 20 + 13,
        ),
        ActView::Expect("nxterm: asked the shell for window state 2"@),
        ActView::Expect(
            "desktop-shell: maximize window "@ + number::written(s.term.id as int) + " to "@
                + number::written(s.work.x as int) + ","@ + number::written(s.work.y as int) + " "@
                + number::written(s.work.w as int) + "x"@ + number::written(s.work.h as int),
        ),
        ActView::ExpectBoth(
            "desktop-shell: window "@ + number::written(s.term.id as int) + " geometry "@
                + number::written(s.work.x as int) + ","@ + number::written(s.work.y as int) + " "@,
            "nxterm: resized to "@ + number::written(s.work.w as int) + "x"@
                + number::written(s.work.h as int) + ", grid "@,
        ),
        ActView::Expect(
            "desktop-shell: window "@ + number::written(s.term.id as int) + " geometry "@
                + number::written(s.work.x as int) + ","@ + number::written(s.work.y as int) + " "@
                + number::written(s.work.w as int) + "x"@ + number::written(s.work.h as int),
        ),
        ActView::Say(
            "  ok: maximise moved the window and the client committed the work area exactly"@,
        ),
    ]
}

#[verifier::rlimit(60)]
fn sticky_script(s: Login) -> (r: Script)
    ensures
        r@ == sticky_acts(s),
{
    reveal(sticky_acts);
    let mut o = Script::new();
    o.say("  ok: the wallpaper is sticky — still there on an empty desktop");
    o.chord(false, "2");
    o.expect("desktop-shell: switched to ");
    o.click(1200, 788);
    o.expect("desktop-shell: overview open, window ");
    o.chord(false, "1");
    o.expect("desktop-shell: switched to work");
    o.expect("desktop-shell: overview now showing 0 on work");
    o.click(1180, 132);
    o.expect("desktop-shell: switched to cli");
    o.expect("desktop-shell: overview now showing 1 on cli");
    o.click(1180, 132);
    o.expect("desktop-shell: overview closed");
    o.click(1200, 788);
    o.expect("desktop-shell: overview open, window ");
    o.click(600, 700);
    o.expect("desktop-shell: overview closed");
    o.click(1200, 788);
    o.expect("desktop-shell: overview open, window ");
    o.click(100, 100);
    o.expect("desktop-shell: overview raised window ");
    o.expect("desktop-shell: overview closed");
    o.move_to(100, (s.term.y as i64) + 13);
    o.at(100, (s.term.y as i64) + 13);
    o.button("left", true);
    o.motion(10, 5);
    o.motion(10, 5);
    o.expect("compositor: interactive move of window ");
    o.motion(10, 5);
    o.motion(10, 5);
    o.button("left", false);
    o.at(140, (s.term.y as i64) + 33);
    let m1 = String::from_str("desktop-shell: window ");
    let m1 = script::then_number(m1, (s.term.id as i64));
    let m1 = script::then_text(m1, " geometry ");
    let m1 = script::then_number(m1, (s.term.x as i64) + 40);
    let m1 = script::then_text(m1, ",");
    let m1 = script::then_number(m1, (s.term.y as i64) + 20);
    let m1 = script::then_text(m1, " ");
    o.expect(m1.as_str());
    o.say("  ok: the terminal moved with its own title bar, offset by where it was grabbed");
    o.click(
        (s.term.x as i64) + 40 + placement::span_of(s.term.w) - 39,
        (s.term.y as i64) + 20 + 13,
    );
    o.expect("nxterm: asked the shell for window state 2");
    let m2 = String::from_str("desktop-shell: maximize window ");
    let m2 = script::then_number(m2, (s.term.id as i64));
    let m2 = script::then_text(m2, " to ");
    let m2 = script::then_number(m2, (s.work.x as i64));
    let m2 = script::then_text(m2, ",");
    let m2 = script::then_number(m2, (s.work.y as i64));
    let m2 = script::then_text(m2, " ");
    let m2 = script::then_number(m2, (s.work.w as i64));
    let m2 = script::then_text(m2, "x");
    let m2 = script::then_number(m2, (s.work.h as i64));
    o.expect(m2.as_str());
    let m3 = String::from_str("desktop-shell: window ");
    let m3 = script::then_number(m3, (s.term.id as i64));
    let m3 = script::then_text(m3, " geometry ");
    let m3 = script::then_number(m3, (s.work.x as i64));
    let m3 = script::then_text(m3, ",");
    let m3 = script::then_number(m3, (s.work.y as i64));
    let m3 = script::then_text(m3, " ");
    let m4 = String::from_str("nxterm: resized to ");
    let m4 = script::then_number(m4, (s.work.w as i64));
    let m4 = script::then_text(m4, "x");
    let m4 = script::then_number(m4, (s.work.h as i64));
    let m4 = script::then_text(m4, ", grid ");
    o.add(Act::ExpectBoth(m3, m4));
    let m5 = String::from_str("desktop-shell: window ");
    let m5 = script::then_number(m5, (s.term.id as i64));
    let m5 = script::then_text(m5, " geometry ");
    let m5 = script::then_number(m5, (s.work.x as i64));
    let m5 = script::then_text(m5, ",");
    let m5 = script::then_number(m5, (s.work.y as i64));
    let m5 = script::then_text(m5, " ");
    let m5 = script::then_number(m5, (s.work.w as i64));
    let m5 = script::then_text(m5, "x");
    let m5 = script::then_number(m5, (s.work.h as i64));
    o.expect(m5.as_str());
    o.say("  ok: maximise moved the window and the client committed the work area exactly");
    o
}

/// The acts that drag the terminal: smaller by its corner, through a snapping zone and out again, and
/// into the left half.
#[verifier::opaque]
pub open spec fn drags_acts(s: Login) -> Seq<ActView> {
    seq![
        ActView::MoveTo(
            (s.work.x as int) + placement::span(s.work.w) - 8,
            (s.work.y as int) + placement::span(s.work.h) - 8,
        ),
        ActView::At(
            (s.work.x as int) + placement::span(s.work.w) - 8,
            (s.work.y as int) + placement::span(s.work.h) - 8,
        ),
        ActView::Button("left"@, true),
        ActView::Expect(
            "compositor: interactive resize of window "@ + number::written(s.term.id as int)
                + " edges 10"@,
        ),
        ActView::Motion(-50, -25),
        ActView::Motion(-50, -25),
        ActView::Motion(-50, -25),
        ActView::Motion(-50, -25),
        ActView::Button("left"@, false),
        ActView::At(
            (s.work.x as int) + placement::span(s.work.w) - 208,
            (s.work.y as int) + placement::span(s.work.h) - 108,
        ),
        ActView::Expect(
            "compositor: interactive resize of window "@ + number::written(s.term.id as int)
                + " ended at "@ + number::written(s.work.x as int) + ","@
                + number::written(s.work.y as int) + " "@
                + number::written(wrapped((s.work.w as int) - 200)) + "x"@
                + number::written(wrapped((s.work.h as int) - 100)),
        ),
        ActView::Expect(
            "desktop-shell: drop window "@ + number::written(s.term.id as int) + " to "@
                + number::written(s.work.x as int) + ","@ + number::written(s.work.y as int) + " "@
                + number::written(wrapped((s.work.w as int) - 200)) + "x"@
                + number::written(wrapped((s.work.h as int) - 100)),
        ),
        ActView::Expect(
            "nxterm: resized to "@ + number::written(wrapped((s.work.w as int) - 200)) + "x"@
                + number::written(wrapped((s.work.h as int) - 100)) + ", grid "@,
        ),
        ActView::Expect(
            "desktop-shell: window "@ + number::written(s.term.id as int) + " geometry "@
                + number::written(s.work.x as int) + ","@ + number::written(s.work.y as int) + " "@
                + number::written(wrapped((s.work.w as int) - 200)) + "x"@
                + number::written(wrapped((s.work.h as int) - 100)),
        ),
        ActView::Say("  ok: the terminal was dragged smaller by its corner, and committed it"@),
        ActView::MoveTo(100, (s.work.y as int) + 13),
        ActView::At(100, (s.work.y as int) + 13),
        ActView::Button("left"@, true),
        ActView::Expect("compositor: interactive move of window "@),
        ActView::Motion(-30, 60),
        ActView::Sleep(25),
        ActView::Motion(-30, 60),
        ActView::Sleep(25),
        ActView::Motion(-30, 60),
        ActView::Sleep(25),
        ActView::Motion(66, 0),
        ActView::Sleep(25),
        ActView::Motion(66, 0),
        ActView::Sleep(25),
        ActView::Motion(66, 0),
        ActView::Sleep(25),
        ActView::Button("left"@, false),
        ActView::At(208, (s.work.y as int) + 193),
        ActView::Expect(
            "desktop-shell: window "@ + number::written(s.term.id as int) + " geometry "@
                + number::written((s.work.x as int) + 108) + ","@
                + number::written((s.work.y as int) + 180) + " "@
                + number::written(wrapped((s.work.w as int) - 200)) + "x"@
                + number::written(wrapped((s.work.h as int) - 100)),
        ),
        ActView::Say(
            "  ok: a drag through the zone and out again moved the window and snapped nothing"@,
        ),
        ActView::MoveTo(298, (s.work.y as int) + 193),
        ActView::At(298, (s.work.y as int) + 193),
        ActView::Button("left"@, true),
        ActView::Expect(
            "compositor: press at x=298 y="@ + number::written((s.work.y as int) + 193) + " win="@
                + number::written(s.term.id as int),
        ),
        ActView::Expect("nxterm: dragging its own title bar"@),
        ActView::Expect("compositor: interactive move of window "@),
        ActView::Motion(-48, 30),
        ActView::Sleep(25),
        ActView::Motion(-48, 30),
        ActView::Sleep(25),
        ActView::Motion(-48, 30),
        ActView::Sleep(25),
        ActView::Motion(-48, 30),
        ActView::Sleep(25),
        ActView::Motion(-48, 30),
        ActView::Sleep(25),
        ActView::Motion(-48, 30),
        ActView::Sleep(25),
        ActView::Button("left"@, false),
        ActView::At(10, (s.work.y as int) + 373),
        ActView::Expect(
            "desktop-shell: drop window "@ + number::written(s.term.id as int) + " to "@
                + number::written(s.work.x as int) + ","@ + number::written(s.work.y as int) + " "@
                + number::written((s.work.w as int) / 2) + "x"@ + number::written(s.work.h as int),
        ),
        ActView::Expect(
            "nxterm: resized to "@ + number::written((s.work.w as int) / 2) + "x"@
                + number::written(s.work.h as int) + ", grid "@,
        ),
        ActView::Expect(
            "desktop-shell: window "@ + number::written(s.term.id as int) + " geometry "@
                + number::written(s.work.x as int) + ","@ + number::written(s.work.y as int) + " "@
                + number::written((s.work.w as int) / 2) + "x"@ + number::written(s.work.h as int),
        ),
        ActView::Say("  ok: dropped at the left edge, the terminal took half the work area"@),
    ]
}

#[verifier::rlimit(60)]
fn drags_script(s: Login) -> (r: Script)
    ensures
        r@ == drags_acts(s),
{
    reveal(drags_acts);
    let mut o = Script::new();
    o.move_to(
        (s.work.x as i64) + placement::span_of(s.work.w) - 8,
        (s.work.y as i64) + placement::span_of(s.work.h) - 8,
    );
    o.at(
        (s.work.x as i64) + placement::span_of(s.work.w) - 8,
        (s.work.y as i64) + placement::span_of(s.work.h) - 8,
    );
    o.button("left", true);
    let m1 = String::from_str("compositor: interactive resize of window ");
    let m1 = script::then_number(m1, (s.term.id as i64));
    let m1 = script::then_text(m1, " edges 10");
    o.expect(m1.as_str());
    o.motion(-50, -25);
    o.motion(-50, -25);
    o.motion(-50, -25);
    o.motion(-50, -25);
    o.button("left", false);
    o.at(
        (s.work.x as i64) + placement::span_of(s.work.w) - 208,
        (s.work.y as i64) + placement::span_of(s.work.h) - 108,
    );
    let m2 = String::from_str("compositor: interactive resize of window ");
    let m2 = script::then_number(m2, (s.term.id as i64));
    let m2 = script::then_text(m2, " ended at ");
    let m2 = script::then_number(m2, (s.work.x as i64));
    let m2 = script::then_text(m2, ",");
    let m2 = script::then_number(m2, (s.work.y as i64));
    let m2 = script::then_text(m2, " ");
    let m2 = script::then_number(m2, wrapped_of(s.work.w as i64 - 200));
    let m2 = script::then_text(m2, "x");
    let m2 = script::then_number(m2, wrapped_of(s.work.h as i64 - 100));
    o.expect(m2.as_str());
    let m3 = String::from_str("desktop-shell: drop window ");
    let m3 = script::then_number(m3, (s.term.id as i64));
    let m3 = script::then_text(m3, " to ");
    let m3 = script::then_number(m3, (s.work.x as i64));
    let m3 = script::then_text(m3, ",");
    let m3 = script::then_number(m3, (s.work.y as i64));
    let m3 = script::then_text(m3, " ");
    let m3 = script::then_number(m3, wrapped_of(s.work.w as i64 - 200));
    let m3 = script::then_text(m3, "x");
    let m3 = script::then_number(m3, wrapped_of(s.work.h as i64 - 100));
    o.expect(m3.as_str());
    let m4 = String::from_str("nxterm: resized to ");
    let m4 = script::then_number(m4, wrapped_of(s.work.w as i64 - 200));
    let m4 = script::then_text(m4, "x");
    let m4 = script::then_number(m4, wrapped_of(s.work.h as i64 - 100));
    let m4 = script::then_text(m4, ", grid ");
    o.expect(m4.as_str());
    let m5 = String::from_str("desktop-shell: window ");
    let m5 = script::then_number(m5, (s.term.id as i64));
    let m5 = script::then_text(m5, " geometry ");
    let m5 = script::then_number(m5, (s.work.x as i64));
    let m5 = script::then_text(m5, ",");
    let m5 = script::then_number(m5, (s.work.y as i64));
    let m5 = script::then_text(m5, " ");
    let m5 = script::then_number(m5, wrapped_of(s.work.w as i64 - 200));
    let m5 = script::then_text(m5, "x");
    let m5 = script::then_number(m5, wrapped_of(s.work.h as i64 - 100));
    o.expect(m5.as_str());
    o.say("  ok: the terminal was dragged smaller by its corner, and committed it");
    o.move_to(100, (s.work.y as i64) + 13);
    o.at(100, (s.work.y as i64) + 13);
    o.button("left", true);
    o.expect("compositor: interactive move of window ");
    o.motion(-30, 60);
    o.sleep(25);
    o.motion(-30, 60);
    o.sleep(25);
    o.motion(-30, 60);
    o.sleep(25);
    o.motion(66, 0);
    o.sleep(25);
    o.motion(66, 0);
    o.sleep(25);
    o.motion(66, 0);
    o.sleep(25);
    o.button("left", false);
    o.at(208, (s.work.y as i64) + 193);
    let m6 = String::from_str("desktop-shell: window ");
    let m6 = script::then_number(m6, (s.term.id as i64));
    let m6 = script::then_text(m6, " geometry ");
    let m6 = script::then_number(m6, (s.work.x as i64) + 108);
    let m6 = script::then_text(m6, ",");
    let m6 = script::then_number(m6, (s.work.y as i64) + 180);
    let m6 = script::then_text(m6, " ");
    let m6 = script::then_number(m6, wrapped_of(s.work.w as i64 - 200));
    let m6 = script::then_text(m6, "x");
    let m6 = script::then_number(m6, wrapped_of(s.work.h as i64 - 100));
    o.expect(m6.as_str());
    o.say("  ok: a drag through the zone and out again moved the window and snapped nothing");
    o.move_to(298, (s.work.y as i64) + 193);
    o.at(298, (s.work.y as i64) + 193);
    o.button("left", true);
    let m7 = String::from_str("compositor: press at x=298 y=");
    let m7 = script::then_number(m7, (s.work.y as i64) + 193);
    let m7 = script::then_text(m7, " win=");
    let m7 = script::then_number(m7, (s.term.id as i64));
    o.expect(m7.as_str());
    o.expect("nxterm: dragging its own title bar");
    o.expect("compositor: interactive move of window ");
    o.motion(-48, 30);
    o.sleep(25);
    o.motion(-48, 30);
    o.sleep(25);
    o.motion(-48, 30);
    o.sleep(25);
    o.motion(-48, 30);
    o.sleep(25);
    o.motion(-48, 30);
    o.sleep(25);
    o.motion(-48, 30);
    o.sleep(25);
    o.button("left", false);
    o.at(10, (s.work.y as i64) + 373);
    let m8 = String::from_str("desktop-shell: drop window ");
    let m8 = script::then_number(m8, (s.term.id as i64));
    let m8 = script::then_text(m8, " to ");
    let m8 = script::then_number(m8, (s.work.x as i64));
    let m8 = script::then_text(m8, ",");
    let m8 = script::then_number(m8, (s.work.y as i64));
    let m8 = script::then_text(m8, " ");
    let m8 = script::then_number(m8, (s.work.w as i64) / 2);
    let m8 = script::then_text(m8, "x");
    let m8 = script::then_number(m8, (s.work.h as i64));
    o.expect(m8.as_str());
    let m9 = String::from_str("nxterm: resized to ");
    let m9 = script::then_number(m9, (s.work.w as i64) / 2);
    let m9 = script::then_text(m9, "x");
    let m9 = script::then_number(m9, (s.work.h as i64));
    let m9 = script::then_text(m9, ", grid ");
    o.expect(m9.as_str());
    let m10 = String::from_str("desktop-shell: window ");
    let m10 = script::then_number(m10, (s.term.id as i64));
    let m10 = script::then_text(m10, " geometry ");
    let m10 = script::then_number(m10, (s.work.x as i64));
    let m10 = script::then_text(m10, ",");
    let m10 = script::then_number(m10, (s.work.y as i64));
    let m10 = script::then_text(m10, " ");
    let m10 = script::then_number(m10, (s.work.w as i64) / 2);
    let m10 = script::then_text(m10, "x");
    let m10 = script::then_number(m10, (s.work.h as i64));
    o.expect(m10.as_str());
    o.say("  ok: dropped at the left edge, the terminal took half the work area");
    o
}

/// The acts of a burst: the pointer is pinned in the corner, moved many times across a change of
/// desktop, and clicked.
#[verifier::opaque]
pub open spec fn burst_acts() -> Seq<ActView> {
    ((Seq::<ActView>::empty() + script::repeated(20, ActView::Motion(100, 100))).push(
        ActView::At(1279, 799),
    ).push(
        ActView::Sleep(500),
    ).push(
        ActView::Chord(false, "1"@),
    ) + script::repeated(120, ActView::Motion(-6, -3))).push(
        ActView::Expect("desktop-shell: switched to "@),
    ).push(
        ActView::Sleep(500),
    ).push(
        ActView::Button("left"@, true),
    ).push(
        ActView::Button("left"@, false),
    )
}

fn burst_script() -> (r: Script)
    ensures
        r@ == burst_acts(),
{
    reveal(burst_acts);
    let mut o = Script::new();
    o.motions(20, 100, 100);
    o.at(1279, 799);
    o.sleep(500);
    o.chord(false, "1");
    o.motions(120, -6, -3);
    o.expect("desktop-shell: switched to ");
    o.sleep(500);
    o.button("left", true);
    o.button("left", false);
    o
}

/// The acts once the burst arrived: the terminal is closed, a serial login runs beside the session,
/// and the file browser is launched.
#[verifier::opaque]
pub open spec fn arrived_acts(s: Login) -> Seq<ActView> {
    seq![
        ActView::At(559, 439),
        ActView::Say("  ok: 120 motions across a full-screen repaint arrived to the pixel"@),
        ActView::Chord(false, "2"@),
        ActView::Expect("desktop-shell: switched to "@),
        ActView::Click((s.work.x as int) + (s.work.w as int) / 2 - 13, (s.work.y as int) + 13),
        ActView::Expect("nxterm: closing"@),
        ActView::Expect("desktop-shell: window list on "@),
        ActView::Say("  ok: the close button closed the terminal with no request to the shell"@),
        ActView::Send("alice"@),
        ActView::Expect("password:"@),
        ActView::Send("correct horse battery staple"@),
        ActView::Expect("/home>"@),
        ActView::Send("mkdir ./papers"@),
        ActView::Expect("/home>"@),
        ActView::Click(60, 12),
        ActView::Expect("desktop-shell: applications modal open"@),
        ActView::Modal("nxfiles"@),
        ActView::Press("ret"@),
        ActView::Expect("desktop-shell: launched nxfiles into its own namespace"@),
        ActView::Expect("nxfiles: theme font_px "@ + number::written(s.px as int)),
    ]
}

fn arrived_script(s: Login) -> (r: Script)
    ensures
        r@ == arrived_acts(s),
{
    reveal(arrived_acts);
    let mut o = Script::new();
    o.at(559, 439);
    o.say("  ok: 120 motions across a full-screen repaint arrived to the pixel");
    o.chord(false, "2");
    o.expect("desktop-shell: switched to ");
    o.click((s.work.x as i64) + (s.work.w as i64) / 2 - 13, (s.work.y as i64) + 13);
    o.expect("nxterm: closing");
    o.expect("desktop-shell: window list on ");
    o.say("  ok: the close button closed the terminal with no request to the shell");
    o.send("alice");
    o.expect("password:");
    o.send("correct horse battery staple");
    o.expect("/home>");
    o.send("mkdir ./papers");
    o.expect("/home>");
    o.click(60, 12);
    o.expect("desktop-shell: applications modal open");
    o.modal("nxfiles");
    o.press("ret");
    o.expect("desktop-shell: launched nxfiles into its own namespace");
    let m1 = String::from_str("nxfiles: theme font_px ");
    let m1 = script::then_number(m1, (s.px as i64));
    o.expect(m1.as_str());
    o
}

/// The acts once the file browser has the session's font: its listing is waited for.
#[verifier::opaque]
pub open spec fn font_acts() -> Seq<ActView> {
    seq![
        ActView::Expect("nxfiles: listed /home - "@),
    ]
}

fn font_script() -> (r: Script)
    ensures
        r@ == font_acts(),
{
    reveal(font_acts);
    let mut o = Script::new();
    o.expect("nxfiles: listed /home - ");
    o
}

/// The acts once the browser has listed the home: its window is waited for.
#[verifier::opaque]
pub open spec fn listed_acts(line: Seq<char>) -> Seq<ActView> {
    seq![
        ActView::Say("  ok: nxfiles started at HOME and listed it ("@ + line + ")"@),
        ActView::Expect("desktop-shell: window "@),
    ]
}

fn listed_script(line: &str) -> (r: Script)
    ensures
        r@ == listed_acts(line@),
{
    reveal(listed_acts);
    let mut o = Script::new();
    let m1 = String::from_str("  ok: nxfiles started at HOME and listed it (");
    let m1 = script::then_text(m1, line);
    let m1 = script::then_text(m1, ")");
    o.say(m1.as_str());
    o.expect("desktop-shell: window ");
    o
}

/// The acts once the browser's window is known: it descends, comes back, and opens a file in the
/// editor.
#[verifier::opaque]
pub open spec fn files_acts() -> Seq<ActView> {
    seq![
        ActView::Press("ret"@),
        ActView::Expect("nxfiles: listed /home/papers - 0 entries"@),
        ActView::Say("  ok: Enter descended, and an empty directory lists nothing"@),
        ActView::Press("backspace"@),
        ActView::Expect("nxfiles: listed /home - "@),
        ActView::Say("  ok: Backspace went back up"@),
        ActView::Send("touch ./papers/notes.txt"@),
        ActView::Expect("/home>"@),
        ActView::Press("ret"@),
        ActView::Expect("nxfiles: listed /home/papers - 1 entries"@),
        ActView::Press("ret"@),
        ActView::Expect("desktop-shell: launched nxedit into its own namespace"@),
        ActView::ExpectBoth(
            "nxfiles: asked to open /home/papers/notes.txt"@,
            "nxedit: opened /home/papers/notes.txt - 0 bytes"@,
        ),
        ActView::Expect("desktop-shell: window "@),
    ]
}

fn files_script() -> (r: Script)
    ensures
        r@ == files_acts(),
{
    reveal(files_acts);
    let mut o = Script::new();
    o.press("ret");
    o.expect("nxfiles: listed /home/papers - 0 entries");
    o.say("  ok: Enter descended, and an empty directory lists nothing");
    o.press("backspace");
    o.expect("nxfiles: listed /home - ");
    o.say("  ok: Backspace went back up");
    o.send("touch ./papers/notes.txt");
    o.expect("/home>");
    o.press("ret");
    o.expect("nxfiles: listed /home/papers - 1 entries");
    o.press("ret");
    o.expect("desktop-shell: launched nxedit into its own namespace");
    o.add(
        Act::ExpectBoth(
            String::from_str("nxfiles: asked to open /home/papers/notes.txt"),
            String::from_str("nxedit: opened /home/papers/notes.txt - 0 bytes"),
        ),
    );
    o.expect("desktop-shell: window ");
    o
}

/// The acts once the editor's window is known: what is typed is saved, undone, redone and found.
#[verifier::opaque]
pub open spec fn edit_acts() -> Seq<ActView> {
    seq![
        ActView::Say("  ok: a file row launched the editor on the file it names"@),
        ActView::Press("n"@),
        ActView::Expect("nxedit: buffer rev 1"@),
        ActView::Press("i"@),
        ActView::Expect("nxedit: buffer rev 2"@),
        ActView::Press("t"@),
        ActView::Expect("nxedit: buffer rev 3"@),
        ActView::Press("r"@),
        ActView::Expect("nxedit: buffer rev 4"@),
        ActView::Press("o"@),
        ActView::Expect("nxedit: buffer rev 5"@),
        ActView::Press("x"@),
        ActView::Expect("nxedit: buffer rev 6"@),
        ActView::Say("  ok: 6 keystrokes reached the editor's buffer"@),
        ActView::Control("s"@),
        ActView::Expect("nxedit: saved /home/papers/notes.txt - 7 bytes"@),
        ActView::Send("open ./papers/notes.txt"@),
        ActView::Expect("nitrox"@),
        ActView::Expect("/home>"@),
        ActView::Say("  ok: the shell read back what the editor saved, from outside it"@),
        ActView::Press("a"@),
        ActView::Expect("nxedit: buffer rev "@),
        ActView::Press("b"@),
        ActView::Expect("nxedit: buffer rev "@),
        ActView::Control("z"@),
        ActView::Expect("nxedit: buffer rev "@),
        ActView::Control("s"@),
        ActView::Expect("nxedit: saved /home/papers/notes.txt - 7 bytes"@),
        ActView::Send("open ./papers/notes.txt"@),
        ActView::Expect("nitrox"@),
        ActView::Expect("/home>"@),
        ActView::Say(
            "  ok: one undo took the whole group, and the shell read back the shorter file"@,
        ),
        ActView::Control("y"@),
        ActView::Expect("nxedit: buffer rev "@),
        ActView::Control("s"@),
        ActView::Expect("nxedit: saved /home/papers/notes.txt - 9 bytes"@),
        ActView::Send("open ./papers/notes.txt"@),
        ActView::Expect("nitroxab"@),
        ActView::Expect("/home>"@),
        ActView::Say("  ok: and redo put it back, byte for byte"@),
        ActView::Control("f"@),
        ActView::Press("t"@),
        ActView::Expect("nxedit: find so far 1 chars"@),
        ActView::Press("r"@),
        ActView::Expect("nxedit: find so far 2 chars"@),
        ActView::Press("o"@),
        ActView::Expect("nxedit: find so far 3 chars"@),
        ActView::Press("ret"@),
        ActView::Expect("nxedit: find hit at line 0"@),
        ActView::Press("esc"@),
        ActView::Say("  ok: find took the keys, matched, and gave them back"@),
    ]
}

#[verifier::rlimit(60)]
fn edit_script() -> (r: Script)
    ensures
        r@ == edit_acts(),
{
    reveal(edit_acts);
    let mut o = Script::new();
    o.say("  ok: a file row launched the editor on the file it names");
    o.press("n");
    o.expect("nxedit: buffer rev 1");
    o.press("i");
    o.expect("nxedit: buffer rev 2");
    o.press("t");
    o.expect("nxedit: buffer rev 3");
    o.press("r");
    o.expect("nxedit: buffer rev 4");
    o.press("o");
    o.expect("nxedit: buffer rev 5");
    o.press("x");
    o.expect("nxedit: buffer rev 6");
    o.say("  ok: 6 keystrokes reached the editor's buffer");
    o.control("s");
    o.expect("nxedit: saved /home/papers/notes.txt - 7 bytes");
    o.send("open ./papers/notes.txt");
    o.expect("nitrox");
    o.expect("/home>");
    o.say("  ok: the shell read back what the editor saved, from outside it");
    o.press("a");
    o.expect("nxedit: buffer rev ");
    o.press("b");
    o.expect("nxedit: buffer rev ");
    o.control("z");
    o.expect("nxedit: buffer rev ");
    o.control("s");
    o.expect("nxedit: saved /home/papers/notes.txt - 7 bytes");
    o.send("open ./papers/notes.txt");
    o.expect("nitrox");
    o.expect("/home>");
    o.say("  ok: one undo took the whole group, and the shell read back the shorter file");
    o.control("y");
    o.expect("nxedit: buffer rev ");
    o.control("s");
    o.expect("nxedit: saved /home/papers/notes.txt - 9 bytes");
    o.send("open ./papers/notes.txt");
    o.expect("nitroxab");
    o.expect("/home>");
    o.say("  ok: and redo put it back, byte for byte");
    o.control("f");
    o.press("t");
    o.expect("nxedit: find so far 1 chars");
    o.press("r");
    o.expect("nxedit: find so far 2 chars");
    o.press("o");
    o.expect("nxedit: find so far 3 chars");
    o.press("ret");
    o.expect("nxedit: find hit at line 0");
    o.press("esc");
    o.say("  ok: find took the keys, matched, and gave them back");
    o
}

/// The acts that drag: the editor into the right half, and a file from the browser onto it.
#[verifier::opaque]
pub open spec fn snap_acts(s: Login) -> Seq<ActView> {
    seq![
        ActView::MoveTo(
            (s.edit.x as int) + placement::fraction(placement::span(s.edit.w), 2),
            (s.edit.y as int) + 13,
        ),
        ActView::At(
            (s.edit.x as int) + placement::fraction(placement::span(s.edit.w), 2),
            (s.edit.y as int) + 13,
        ),
        ActView::Button("left"@, true),
        ActView::Motion(120, 0),
        ActView::Motion(120, 0),
        ActView::Motion(120, 0),
        ActView::Motion(120, 0),
        ActView::Motion(120, 0),
        ActView::Motion(120, 0),
        ActView::Expect("compositor: interactive move of window "@),
        ActView::Motion(120, 0),
        ActView::Motion(120, 0),
        ActView::Motion(120, 0),
        ActView::Motion(120, 0),
        ActView::Motion(120, 0),
        ActView::Motion(120, 0),
        ActView::Button("left"@, false),
        ActView::Lost,
        ActView::Expect(
            "desktop-shell: drop window "@ + number::written(s.edit.id as int) + " to "@
                + number::written((s.work.x as int) + (s.work.w as int) / 2) + ","@
                + number::written(s.work.y as int) + " "@ + number::written((s.work.w as int) / 2)
                + "x"@ + number::written(s.work.h as int),
        ),
        ActView::Expect(
            "nxedit: resized to "@ + number::written((s.work.w as int) / 2) + "x"@
                + number::written(s.work.h as int),
        ),
        ActView::Say("  ok: the editor snapped to the right half, clear of the browser"@),
        ActView::Send("touch ./papers/other.txt"@),
        ActView::Expect("/home>"@),
        ActView::Click((s.files.x as int) + 120, (s.files.y as int) + 87),
        ActView::Press("backspace"@),
        ActView::Expect("nxfiles: listed /home - "@),
        ActView::Press("ret"@),
        ActView::Expect("nxfiles: listed /home/papers - 2 entries"@),
        ActView::MoveTo((s.files.x as int) + 120, (s.files.y as int) + 128),
        ActView::At((s.files.x as int) + 120, (s.files.y as int) + 128),
        ActView::Button("left"@, true),
        ActView::Motion(100, 40),
        ActView::Motion(100, 40),
        ActView::Motion(100, 40),
        ActView::Motion(100, 40),
        ActView::Motion(100, 40),
        ActView::Motion(100, 40),
        ActView::Expect("nxfiles: dragging other.txt"@),
        ActView::Expect("compositor: drag from window "@),
        ActView::At((s.files.x as int) + 720, (s.files.y as int) + 368),
        ActView::MoveTo(
            (s.work.x as int) + placement::fraction(placement::span(s.work.w) * 3, 4),
            (s.work.y as int) + placement::fraction(placement::span(s.work.h), 2),
        ),
        ActView::Button("left"@, false),
        ActView::At(
            (s.work.x as int) + placement::fraction(placement::span(s.work.w) * 3, 4),
            (s.work.y as int) + placement::fraction(placement::span(s.work.h), 2),
        ),
        ActView::Expect(
            "compositor: drop win="@ + number::written(s.edit.id as int) + " on=document"@,
        ),
        ActView::Expect("nxedit: drop of other.txt on the document"@),
        ActView::Expect("nxedit: opened /home/papers/other.txt - 0 bytes"@),
        ActView::Say("  ok: a file dragged from the browser opened in the editor"@),
        ActView::Expect("nxedit: tab "@),
    ]
}

#[verifier::rlimit(60)]
fn snap_script(s: Login) -> (r: Script)
    ensures
        r@ == snap_acts(s),
{
    reveal(snap_acts);
    let mut o = Script::new();
    o.move_to(
        (s.edit.x as i64) + placement::fraction_of(placement::span_of(s.edit.w), 2),
        (s.edit.y as i64) + 13,
    );
    o.at(
        (s.edit.x as i64) + placement::fraction_of(placement::span_of(s.edit.w), 2),
        (s.edit.y as i64) + 13,
    );
    o.button("left", true);
    o.motion(120, 0);
    o.motion(120, 0);
    o.motion(120, 0);
    o.motion(120, 0);
    o.motion(120, 0);
    o.motion(120, 0);
    o.expect("compositor: interactive move of window ");
    o.motion(120, 0);
    o.motion(120, 0);
    o.motion(120, 0);
    o.motion(120, 0);
    o.motion(120, 0);
    o.motion(120, 0);
    o.button("left", false);
    o.lost();
    let m1 = String::from_str("desktop-shell: drop window ");
    let m1 = script::then_number(m1, (s.edit.id as i64));
    let m1 = script::then_text(m1, " to ");
    let m1 = script::then_number(m1, (s.work.x as i64) + (s.work.w as i64) / 2);
    let m1 = script::then_text(m1, ",");
    let m1 = script::then_number(m1, (s.work.y as i64));
    let m1 = script::then_text(m1, " ");
    let m1 = script::then_number(m1, (s.work.w as i64) / 2);
    let m1 = script::then_text(m1, "x");
    let m1 = script::then_number(m1, (s.work.h as i64));
    o.expect(m1.as_str());
    let m2 = String::from_str("nxedit: resized to ");
    let m2 = script::then_number(m2, (s.work.w as i64) / 2);
    let m2 = script::then_text(m2, "x");
    let m2 = script::then_number(m2, (s.work.h as i64));
    o.expect(m2.as_str());
    o.say("  ok: the editor snapped to the right half, clear of the browser");
    o.send("touch ./papers/other.txt");
    o.expect("/home>");
    o.click((s.files.x as i64) + 120, (s.files.y as i64) + 87);
    o.press("backspace");
    o.expect("nxfiles: listed /home - ");
    o.press("ret");
    o.expect("nxfiles: listed /home/papers - 2 entries");
    o.move_to((s.files.x as i64) + 120, (s.files.y as i64) + 128);
    o.at((s.files.x as i64) + 120, (s.files.y as i64) + 128);
    o.button("left", true);
    o.motion(100, 40);
    o.motion(100, 40);
    o.motion(100, 40);
    o.motion(100, 40);
    o.motion(100, 40);
    o.motion(100, 40);
    o.expect("nxfiles: dragging other.txt");
    o.expect("compositor: drag from window ");
    o.at((s.files.x as i64) + 720, (s.files.y as i64) + 368);
    o.move_to(
        (s.work.x as i64) + placement::fraction_of(placement::span_of(s.work.w) * 3, 4),
        (s.work.y as i64) + placement::fraction_of(placement::span_of(s.work.h), 2),
    );
    o.button("left", false);
    o.at(
        (s.work.x as i64) + placement::fraction_of(placement::span_of(s.work.w) * 3, 4),
        (s.work.y as i64) + placement::fraction_of(placement::span_of(s.work.h), 2),
    );
    let m3 = String::from_str("compositor: drop win=");
    let m3 = script::then_number(m3, (s.edit.id as i64));
    let m3 = script::then_text(m3, " on=document");
    o.expect(m3.as_str());
    o.expect("nxedit: drop of other.txt on the document");
    o.expect("nxedit: opened /home/papers/other.txt - 0 bytes");
    o.say("  ok: a file dragged from the browser opened in the editor");
    o.expect("nxedit: tab ");
    o
}

/// The acts once the dropped file is current: the first tab is clicked.
#[verifier::opaque]
pub open spec fn tab_acts(s: Login) -> Seq<ActView> {
    seq![
        ActView::Click((s.work.x as int) + (s.work.w as int) / 2 + 44, (s.work.y as int) + 39),
        ActView::Expect("nxedit: tab "@),
    ]
}

fn tab_script(s: Login) -> (r: Script)
    ensures
        r@ == tab_acts(s),
{
    reveal(tab_acts);
    let mut o = Script::new();
    o.click((s.work.x as i64) + (s.work.w as i64) / 2 + 44, (s.work.y as i64) + 39);
    o.expect("nxedit: tab ");
    o
}

/// The acts once the first tab is current: its save is read back, a word is copied, and a terminal is
/// launched.
#[verifier::opaque]
pub open spec fn switched_acts() -> Seq<ActView> {
    seq![
        ActView::Say("  ok: the editor holds two buffers, and a tab click switched between them"@),
        ActView::Press("end"@),
        ActView::Press("c"@),
        ActView::Expect("nxedit: buffer rev "@),
        ActView::Control("s"@),
        ActView::Expect("nxedit: saved /home/papers/notes.txt - 10 bytes"@),
        ActView::Send("open ./papers/notes.txt"@),
        ActView::Expect("nitroxabc"@),
        ActView::Expect("/home>"@),
        ActView::Send("list ./papers"@),
        ActView::Expect("/home>"@),
        ActView::Say("  ok: and the save reached the current tab's file, read back by the shell"@),
        ActView::Control("f"@),
        ActView::Press("n"@),
        ActView::Expect("nxedit: find so far 1 chars"@),
        ActView::Press("i"@),
        ActView::Expect("nxedit: find so far 2 chars"@),
        ActView::Press("t"@),
        ActView::Expect("nxedit: find so far 3 chars"@),
        ActView::Press("r"@),
        ActView::Expect("nxedit: find so far 4 chars"@),
        ActView::Press("o"@),
        ActView::Expect("nxedit: find so far 5 chars"@),
        ActView::Press("x"@),
        ActView::Expect("nxedit: find so far 6 chars"@),
        ActView::Press("ret"@),
        ActView::Expect("nxedit: find hit at line 0"@),
        ActView::Press("esc"@),
        ActView::Control("c"@),
        ActView::Expect("nxedit: copied 6 bytes"@),
        ActView::Say("  ok: the editor copied its selection onto the ring"@),
        ActView::Click(60, 12),
        ActView::Expect("desktop-shell: applications modal open"@),
        ActView::Modal("nxterm"@),
        ActView::Press("ret"@),
        ActView::Expect("desktop-shell: launched nxterm into its own namespace"@),
        ActView::Expect("desktop-shell: applications modal closed"@),
        ActView::Expect("desktop-shell: placed window "@),
    ]
}

#[verifier::rlimit(60)]
fn switched_script() -> (r: Script)
    ensures
        r@ == switched_acts(),
{
    reveal(switched_acts);
    let mut o = Script::new();
    o.say("  ok: the editor holds two buffers, and a tab click switched between them");
    o.press("end");
    o.press("c");
    o.expect("nxedit: buffer rev ");
    o.control("s");
    o.expect("nxedit: saved /home/papers/notes.txt - 10 bytes");
    o.send("open ./papers/notes.txt");
    o.expect("nitroxabc");
    o.expect("/home>");
    o.send("list ./papers");
    o.expect("/home>");
    o.say("  ok: and the save reached the current tab's file, read back by the shell");
    o.control("f");
    o.press("n");
    o.expect("nxedit: find so far 1 chars");
    o.press("i");
    o.expect("nxedit: find so far 2 chars");
    o.press("t");
    o.expect("nxedit: find so far 3 chars");
    o.press("r");
    o.expect("nxedit: find so far 4 chars");
    o.press("o");
    o.expect("nxedit: find so far 5 chars");
    o.press("x");
    o.expect("nxedit: find so far 6 chars");
    o.press("ret");
    o.expect("nxedit: find hit at line 0");
    o.press("esc");
    o.control("c");
    o.expect("nxedit: copied 6 bytes");
    o.say("  ok: the editor copied its selection onto the ring");
    o.click(60, 12);
    o.expect("desktop-shell: applications modal open");
    o.modal("nxterm");
    o.press("ret");
    o.expect("desktop-shell: launched nxterm into its own namespace");
    o.expect("desktop-shell: applications modal closed");
    o.expect("desktop-shell: placed window ");
    o
}

/// The acts once the terminal is placed: the word is pasted into a command, and the shell asked for
/// what it made.
#[verifier::opaque]
pub open spec fn paste_acts(p: (u32, i32, i32)) -> Seq<ActView> {
    seq![
        ActView::Click(p.1 + 100, p.2 + 90),
        ActView::Press("t"@),
        ActView::Press("o"@),
        ActView::Press("u"@),
        ActView::Press("c"@),
        ActView::Press("h"@),
        ActView::Press("spc"@),
        ActView::Press("dot"@),
        ActView::Press("slash"@),
        ActView::Key("ctrl"@, true),
        ActView::Key("shift"@, true),
        ActView::Press("v"@),
        ActView::Key("shift"@, false),
        ActView::Key("ctrl"@, false),
        ActView::Expect("nxterm: pasted 6 bytes"@),
        ActView::Press("dot"@),
        ActView::Press("c"@),
        ActView::Press("l"@),
        ActView::Press("i"@),
        ActView::Press("p"@),
        ActView::Press("ret"@),
        ActView::Send("list ."@),
    ]
}

fn paste_script(p: (u32, i32, i32)) -> (r: Script)
    ensures
        r@ == paste_acts(p),
{
    reveal(paste_acts);
    let mut o = Script::new();
    o.click(p.1 as i64 + 100, p.2 as i64 + 90);
    o.press("t");
    o.press("o");
    o.press("u");
    o.press("c");
    o.press("h");
    o.press("spc");
    o.press("dot");
    o.press("slash");
    o.key("ctrl", true);
    o.key("shift", true);
    o.press("v");
    o.key("shift", false);
    o.key("ctrl", false);
    o.expect("nxterm: pasted 6 bytes");
    o.press("dot");
    o.press("c");
    o.press("l");
    o.press("i");
    o.press("p");
    o.press("ret");
    o.send("list .");
    o
}

/// The acts where what was pasted has not shown yet: the shell is asked again.
#[verifier::opaque]
pub open spec fn retry_acts() -> Seq<ActView> {
    seq![
        ActView::Skip,
        ActView::Send("list ."@),
    ]
}

fn retry_script() -> (r: Script)
    ensures
        r@ == retry_acts(),
{
    reveal(retry_acts);
    let mut o = Script::new();
    o.skip();
    o.send("list .");
    o
}

/// The acts once the pasted command has run: the terminal ends, and the browser's menu is opened.
#[verifier::opaque]
pub open spec fn clip_acts(s: Login) -> Seq<ActView> {
    seq![
        ActView::Expect("/home>"@),
        ActView::Say("  ok: the paste reached the shell in the terminal, and it made nitrox.clip"@),
        ActView::Press("e"@),
        ActView::Press("x"@),
        ActView::Press("i"@),
        ActView::Press("t"@),
        ActView::Press("ret"@),
        ActView::Expect("nxterm: the terminal ended"@),
        ActView::Click((s.files.x as int) + 20, (s.files.y as int) + 39),
        ActView::Expect("nxfiles: menu popup "@),
    ]
}

fn clip_script(s: Login) -> (r: Script)
    ensures
        r@ == clip_acts(s),
{
    reveal(clip_acts);
    let mut o = Script::new();
    o.expect("/home>");
    o.say("  ok: the paste reached the shell in the terminal, and it made nitrox.clip");
    o.press("e");
    o.press("x");
    o.press("i");
    o.press("t");
    o.press("ret");
    o.expect("nxterm: the terminal ended");
    o.click((s.files.x as i64) + 20, (s.files.y as i64) + 39);
    o.expect("nxfiles: menu popup ");
    o
}

/// The acts once the menu is placed: a file is renamed through it, and an editor without a file is
/// launched.
#[verifier::opaque]
pub open spec fn popup_acts(popup: (u32, i32, i32, u32, u32)) -> Seq<ActView> {
    seq![
        ActView::Click(
            popup.1 + 20,
            popup.2 + 3 + row_height(popup.4) * 2 + placement::fraction(row_height(popup.4), 2),
        ),
        ActView::Press("r"@),
        ActView::Expect("nxfiles: name so far 1 chars"@),
        ActView::Press("e"@),
        ActView::Expect("nxfiles: name so far 2 chars"@),
        ActView::Press("n"@),
        ActView::Expect("nxfiles: name so far 3 chars"@),
        ActView::Press("a"@),
        ActView::Expect("nxfiles: name so far 4 chars"@),
        ActView::Press("m"@),
        ActView::Expect("nxfiles: name so far 5 chars"@),
        ActView::Press("e"@),
        ActView::Expect("nxfiles: name so far 6 chars"@),
        ActView::Press("d"@),
        ActView::Expect("nxfiles: name so far 7 chars"@),
        ActView::Press("ret"@),
        ActView::Expect("nxfiles: renamed /home/papers/renamed"@),
        ActView::Expect("nxfiles: listed /home/papers - 2 entries"@),
        ActView::Say("  ok: the browser's File menu renamed a file"@),
        ActView::Send("open ./papers/renamed"@),
        ActView::Expect("nitrox"@),
        ActView::Expect("/home>"@),
        ActView::Say("  ok: and the shell found the new name, with the old contents"@),
        ActView::Press("esc"@),
        ActView::Skip,
        ActView::Click(60, 12),
        ActView::Expect("desktop-shell: applications modal open"@),
        ActView::Modal("nxedit"@),
        ActView::Press("ret"@),
        ActView::Expect("desktop-shell: launched nxedit into its own namespace"@),
        ActView::Expect("desktop-shell: placed window "@),
    ]
}

#[verifier::rlimit(60)]
fn popup_script(popup: (u32, i32, i32, u32, u32)) -> (r: Script)
    ensures
        r@ == popup_acts(popup),
{
    reveal(popup_acts);
    let mut o = Script::new();
    o.click(
        popup.1 as i64 + 20,
        popup.2 as i64 + 3 + row_height_of(popup.4) * 2 + placement::fraction_of(
            row_height_of(popup.4),
            2,
        ),
    );
    o.press("r");
    o.expect("nxfiles: name so far 1 chars");
    o.press("e");
    o.expect("nxfiles: name so far 2 chars");
    o.press("n");
    o.expect("nxfiles: name so far 3 chars");
    o.press("a");
    o.expect("nxfiles: name so far 4 chars");
    o.press("m");
    o.expect("nxfiles: name so far 5 chars");
    o.press("e");
    o.expect("nxfiles: name so far 6 chars");
    o.press("d");
    o.expect("nxfiles: name so far 7 chars");
    o.press("ret");
    o.expect("nxfiles: renamed /home/papers/renamed");
    o.expect("nxfiles: listed /home/papers - 2 entries");
    o.say("  ok: the browser's File menu renamed a file");
    o.send("open ./papers/renamed");
    o.expect("nitrox");
    o.expect("/home>");
    o.say("  ok: and the shell found the new name, with the old contents");
    o.press("esc");
    o.skip();
    o.click(60, 12);
    o.expect("desktop-shell: applications modal open");
    o.modal("nxedit");
    o.press("ret");
    o.expect("desktop-shell: launched nxedit into its own namespace");
    o.expect("desktop-shell: placed window ");
    o
}

/// The acts once the second editor is placed: its buffer is saved under a name, changed, and closed.
#[verifier::opaque]
pub open spec fn blank_acts(s: Login) -> Seq<ActView> {
    seq![
        ActView::Say(
            "  ok: the editor launched from the menu and stayed up (window "@
                + number::written(s.blank.id as int) + ")"@,
        ),
        ActView::Settle,
        ActView::Control("s"@),
        ActView::Press("s"@),
        ActView::Expect("nxedit: name so far 1 chars"@),
        ActView::Press("c"@),
        ActView::Expect("nxedit: name so far 2 chars"@),
        ActView::Press("r"@),
        ActView::Expect("nxedit: name so far 3 chars"@),
        ActView::Press("a"@),
        ActView::Expect("nxedit: name so far 4 chars"@),
        ActView::Press("t"@),
        ActView::Expect("nxedit: name so far 5 chars"@),
        ActView::Press("c"@),
        ActView::Expect("nxedit: name so far 6 chars"@),
        ActView::Press("h"@),
        ActView::Expect("nxedit: name so far 7 chars"@),
        ActView::Press("ret"@),
        ActView::Expect("nxedit: saved /home/scratch - 0 bytes"@),
        ActView::Say("  ok: an untitled buffer was named and written into the session's home"@),
        ActView::Press("z"@),
        ActView::Expect("nxedit: buffer rev 1"@),
        ActView::Click((s.blank.x as int) + 547, (s.blank.y as int) + 13),
        ActView::Expect("nxedit: unsaved buffer - asking before closing"@),
        ActView::Expect("desktop-shell: placed dialog "@),
    ]
}

fn blank_script(s: Login) -> (r: Script)
    ensures
        r@ == blank_acts(s),
{
    reveal(blank_acts);
    let mut o = Script::new();
    let m1 = String::from_str("  ok: the editor launched from the menu and stayed up (window ");
    let m1 = script::then_number(m1, (s.blank.id as i64));
    let m1 = script::then_text(m1, ")");
    o.say(m1.as_str());
    o.settle();
    o.control("s");
    o.press("s");
    o.expect("nxedit: name so far 1 chars");
    o.press("c");
    o.expect("nxedit: name so far 2 chars");
    o.press("r");
    o.expect("nxedit: name so far 3 chars");
    o.press("a");
    o.expect("nxedit: name so far 4 chars");
    o.press("t");
    o.expect("nxedit: name so far 5 chars");
    o.press("c");
    o.expect("nxedit: name so far 6 chars");
    o.press("h");
    o.expect("nxedit: name so far 7 chars");
    o.press("ret");
    o.expect("nxedit: saved /home/scratch - 0 bytes");
    o.say("  ok: an untitled buffer was named and written into the session's home");
    o.press("z");
    o.expect("nxedit: buffer rev 1");
    o.click((s.blank.x as i64) + 547, (s.blank.y as i64) + 13);
    o.expect("nxedit: unsaved buffer - asking before closing");
    o.expect("desktop-shell: placed dialog ");
    o
}

/// The acts once the question is where it belongs: it is answered with no, and asked again.
#[verifier::opaque]
pub open spec fn kept_acts(s: Login, dialog: (u32, u32, i32, i32, u32, u32)) -> Seq<ActView> {
    seq![
        ActView::Say(
            "  ok: an unsaved buffer asked instead of exiting, in a dialog centred on it"@,
        ),
        ActView::Click(dialog.2 + 249, dialog.3 + 103),
        ActView::Expect("nxedit: close cancelled, still editing"@),
        ActView::Say("  ok: `keep editing` dismissed the question and kept the editor"@),
        ActView::Click((s.blank.x as int) + 547, (s.blank.y as int) + 13),
        ActView::Expect("nxedit: unsaved buffer - asking before closing"@),
        ActView::Expect("desktop-shell: placed dialog "@),
    ]
}

fn kept_script(s: Login, dialog: (u32, u32, i32, i32, u32, u32)) -> (r: Script)
    ensures
        r@ == kept_acts(s, dialog),
{
    reveal(kept_acts);
    let mut o = Script::new();
    o.say("  ok: an unsaved buffer asked instead of exiting, in a dialog centred on it");
    o.click(dialog.2 as i64 + 249, dialog.3 as i64 + 103);
    o.expect("nxedit: close cancelled, still editing");
    o.say("  ok: `keep editing` dismissed the question and kept the editor");
    o.click((s.blank.x as i64) + 547, (s.blank.y as i64) + 13);
    o.expect("nxedit: unsaved buffer - asking before closing");
    o.expect("desktop-shell: placed dialog ");
    o
}

/// The acts that answer the question with yes.
#[verifier::opaque]
pub open spec fn discard_acts(dialog: (u32, u32, i32, i32, u32, u32)) -> Seq<ActView> {
    seq![
        ActView::Click(dialog.2 + 91, dialog.3 + 103),
        ActView::Expect("nxedit: discarding the unsaved buffer"@),
        ActView::Expect("nxedit: closing"@),
        ActView::Expect("desktop-shell: window list on "@),
    ]
}

fn discard_script(dialog: (u32, u32, i32, i32, u32, u32)) -> (r: Script)
    ensures
        r@ == discard_acts(dialog),
{
    reveal(discard_acts);
    let mut o = Script::new();
    o.click(dialog.2 as i64 + 91, dialog.3 as i64 + 103);
    o.expect("nxedit: discarding the unsaved buffer");
    o.expect("nxedit: closing");
    o.expect("desktop-shell: window list on ");
    o
}

/// The acts where the closed window is still listed: the next list is waited for.
#[verifier::opaque]
pub open spec fn relist_acts() -> Seq<ActView> {
    seq![
        ActView::Expect("desktop-shell: window list on "@),
    ]
}

fn relist_script() -> (r: Script)
    ensures
        r@ == relist_acts(),
{
    reveal(relist_acts);
    let mut o = Script::new();
    o.expect("desktop-shell: window list on ");
    o
}

/// The acts once the closed window has left the taskbar: the other editor is changed, and asked to
/// close.
#[verifier::opaque]
pub open spec fn closing_acts(s: Login) -> Seq<ActView> {
    seq![
        ActView::Say("  ok: `discard` was the only thing that ended the run"@),
        ActView::Click(
            (s.work.x as int) + placement::fraction(placement::span(s.work.w) * 3, 4),
            (s.work.y as int) + placement::fraction(placement::span(s.work.h), 2),
        ),
        ActView::Press("z"@),
        ActView::Expect("nxedit: buffer rev 1"@),
        ActView::MiddleClick((s.slot as int) * 180 + 90, 788),
        ActView::Expect(
            "compositor: asked window "@ + number::written(s.edit.id as int) + " to close"@,
        ),
        ActView::Expect("nxedit: unsaved buffer - asking before closing"@),
        ActView::Expect("desktop-shell: placed dialog "@),
    ]
}

fn closing_script(s: Login) -> (r: Script)
    ensures
        r@ == closing_acts(s),
{
    reveal(closing_acts);
    let mut o = Script::new();
    o.say("  ok: `discard` was the only thing that ended the run");
    o.click(
        (s.work.x as i64) + placement::fraction_of(placement::span_of(s.work.w) * 3, 4),
        (s.work.y as i64) + placement::fraction_of(placement::span_of(s.work.h), 2),
    );
    o.press("z");
    o.expect("nxedit: buffer rev 1");
    o.middle_click((s.slot as i64) * 180 + 90, 788);
    let m1 = String::from_str("compositor: asked window ");
    let m1 = script::then_number(m1, (s.edit.id as i64));
    let m1 = script::then_text(m1, " to close");
    o.expect(m1.as_str());
    o.expect("nxedit: unsaved buffer - asking before closing");
    o.expect("desktop-shell: placed dialog ");
    o
}

/// The last acts: the question is answered with no, asked again later, and insisted on.
#[verifier::opaque]
pub open spec fn insist_acts(s: Login, dialog: (u32, u32, i32, i32, u32, u32)) -> Seq<ActView> {
    seq![
        ActView::Say("  ok: the taskbar's ask reached a client that declined to answer it"@),
        ActView::Click(dialog.2 + 249, dialog.3 + 103),
        ActView::Expect("nxedit: close cancelled, still editing"@),
        ActView::Sleep(6000),
        ActView::MiddleClick((s.slot as int) * 180 + 90, 788),
        ActView::Expect(
            "compositor: asked window "@ + number::written(s.edit.id as int) + " to close"@,
        ),
        ActView::Expect("nxedit: unsaved buffer - asking before closing"@),
        ActView::Say(
            "  ok: the arming expired, so a later click asked again rather than destroying"@,
        ),
        ActView::MiddleClick((s.slot as int) * 180 + 90, 788),
        ActView::Expect(
            "desktop-shell: window "@ + number::written(s.edit.id as int)
                + " did not answer; closed it"@,
        ),
        ActView::Say(
            "  ok: a second middle-click destroyed the window the first one only asked about"@,
        ),
    ]
}

fn insist_script(s: Login, dialog: (u32, u32, i32, i32, u32, u32)) -> (r: Script)
    ensures
        r@ == insist_acts(s, dialog),
{
    reveal(insist_acts);
    let mut o = Script::new();
    o.say("  ok: the taskbar's ask reached a client that declined to answer it");
    o.click(dialog.2 as i64 + 249, dialog.3 as i64 + 103);
    o.expect("nxedit: close cancelled, still editing");
    o.sleep(6000);
    o.middle_click((s.slot as i64) * 180 + 90, 788);
    let m1 = String::from_str("compositor: asked window ");
    let m1 = script::then_number(m1, (s.edit.id as i64));
    let m1 = script::then_text(m1, " to close");
    o.expect(m1.as_str());
    o.expect("nxedit: unsaved buffer - asking before closing");
    o.say("  ok: the arming expired, so a later click asked again rather than destroying");
    o.middle_click((s.slot as i64) * 180 + 90, 788);
    let m2 = String::from_str("desktop-shell: window ");
    let m2 = script::then_number(m2, (s.edit.id as i64));
    let m2 = script::then_text(m2, " did not answer; closed it");
    o.expect(m2.as_str());
    o.say("  ok: a second middle-click destroyed the window the first one only asked about");
    o
}

/// What a turn comes to: a fault, or the session as it is then known, the acts that come next, and
/// what is asked when they are done.
pub enum TurnView {
    Fault(LoginFault),
    Go(Login, Seq<ActView>, AskView),
}

/// What the burst's click has to print.
pub open spec fn burst_line() -> Seq<char> {
    script::press_line(1279 + 120 * -6, 799 + 120 * -3)
}

/// The turn that a line gives.
pub open spec fn line_turn(s: Login, line: Seq<char>) -> TurnView {
    match s.stage {
        Stage::Theme => match font_size(line) {
            None => TurnView::Fault(LoginFault::NoFont),
            Some(px) => TurnView::Go(
                Login { stage: Stage::Wallpaper, px, ..s },
                theme_acts(line),
                AskView::Line,
            ),
        },
        Stage::Wallpaper => match leading_id(line) {
            None => TurnView::Fault(LoginFault::NoWallpaper),
            Some(wallpaper) => TurnView::Go(
                Login { stage: Stage::WorkArea, wallpaper, ..s },
                wallpaper_acts(),
                AskView::Line,
            ),
        },
        Stage::WorkArea => match placement::work_area(line) {
            None => TurnView::Fault(LoginFault::NoWorkArea),
            Some(a) => if a.3 >= a.5 {
                TurnView::Fault(LoginFault::WholeScreen)
            } else {
                let t = Login {
                    stage: Stage::Placed,
                    work: Area { x: a.0, y: a.1, w: a.2, h: a.3 },
                    screen_w: a.4,
                    screen_h: a.5,
                    ..s
                };
                TurnView::Go(t, work_acts(t), AskView::Line)
            },
        },
        Stage::Placed => match placement::placement(line) {
            None => TurnView::Fault(LoginFault::NoPlacement),
            Some(p) => {
                let t = Login {
                    stage: Stage::Sized,
                    first: p.0,
                    term: Window { id: p.0, x: p.1, y: p.2, w: 0, h: 0 },
                    ..s
                };
                TurnView::Go(t, placed_acts(t), AskView::Line)
            },
        },
        Stage::Sized => match placement::geometry(line) {
            None => TurnView::Fault(LoginFault::NoGeometry),
            Some(g) => {
                let t = Login {
                    stage: Stage::Replaced,
                    term: Window { w: g.0, h: g.1, ..s.term },
                    ..s
                };
                TurnView::Go(t, sized_acts(t), AskView::Line)
            },
        },
        Stage::Replaced => match placement::placement(line) {
            None => TurnView::Fault(LoginFault::NoPlacement),
            Some(p) => {
                let t = Login {
                    stage: Stage::Resized,
                    term: Window { id: p.0, x: p.1, y: p.2, w: 0, h: 0 },
                    ..s
                };
                TurnView::Go(t, replaced_acts(t), AskView::Line)
            },
        },
        Stage::Resized => match placement::geometry(line) {
            None => TurnView::Fault(LoginFault::NoGeometry),
            Some(g) => TurnView::Go(
                Login {
                    stage: Stage::Overview,
                    term: Window { w: g.0, h: g.1, ..s.term },
                    ..s
                },
                resized_acts(),
                AskView::Nothing,
            ),
        },
        Stage::Sticky => if names_window(line, s.wallpaper) {
            TurnView::Go(Login { stage: Stage::Drags, ..s }, sticky_acts(s), AskView::Nothing)
        } else {
            TurnView::Fault(LoginFault::NotSticky)
        },
        Stage::Listed => TurnView::Go(
            Login { stage: Stage::Files, ..s },
            listed_acts(line),
            AskView::Line,
        ),
        Stage::Files => match placement::window_line(line, "geometry"@) {
            None => TurnView::Fault(LoginFault::NoGeometry),
            Some(g) => TurnView::Go(
                Login {
                    stage: Stage::Edit,
                    files: Window { id: g.0, x: g.1, y: g.2, w: g.3, h: g.4 },
                    ..s
                },
                files_acts(),
                AskView::Line,
            ),
        },
        Stage::Edit => match placement::window_line(line, "geometry"@) {
            None => TurnView::Fault(LoginFault::NoGeometry),
            Some(g) => TurnView::Go(
                Login {
                    stage: Stage::Snap,
                    edit: Window { id: g.0, x: g.1, y: g.2, w: g.3, h: g.4 },
                    ..s
                },
                edit_acts(),
                AskView::Nothing,
            ),
        },
        Stage::Tab => if text::contains(line, "other.txt"@) {
            TurnView::Go(Login { stage: Stage::Switched, ..s }, tab_acts(s), AskView::Line)
        } else {
            TurnView::Fault(LoginFault::NotCurrent)
        },
        Stage::Switched => if text::contains(line, "notes.txt"@) {
            TurnView::Go(Login { stage: Stage::Paste, ..s }, switched_acts(), AskView::Line)
        } else {
            TurnView::Fault(LoginFault::NotSwitched)
        },
        Stage::Paste => match placement::placement(line) {
            None => TurnView::Fault(LoginFault::NoPlacement),
            Some(p) => TurnView::Go(
                Login { stage: Stage::Clip, tries: 1, ..s },
                paste_acts(p),
                AskView::Within("nitrox.clip"@, 3),
            ),
        },
        Stage::Popup => match placement::menu_popup(line) {
            None => TurnView::Fault(LoginFault::NoPopup),
            Some(p) => TurnView::Go(
                Login { stage: Stage::Blank, ..s },
                popup_acts(p),
                AskView::Line,
            ),
        },
        Stage::Blank => match placement::placement(line) {
            None => TurnView::Fault(LoginFault::NoPlacement),
            Some(p) => {
                let t = Login {
                    stage: Stage::Dialog,
                    blank: Window { id: p.0, x: p.1, y: p.2, w: 560, h: 420 },
                    ..s
                };
                TurnView::Go(t, blank_acts(t), AskView::Line)
            },
        },
        Stage::Dialog => match placement::dialog_placement(line) {
            None => TurnView::Fault(LoginFault::NoDialog),
            Some(d) => match question_fault(s, d) {
                Some(f) => TurnView::Fault(f),
                None => TurnView::Go(
                    Login { stage: Stage::Second, ..s },
                    kept_acts(s, d),
                    AskView::Line,
                ),
            },
        },
        Stage::Second => match placement::dialog_placement(line) {
            None => TurnView::Fault(LoginFault::NoDialog),
            Some(d) => TurnView::Go(
                Login { stage: Stage::Closing, tries: 1, ..s },
                discard_acts(d),
                AskView::Line,
            ),
        },
        Stage::Closing => match placement::slot(line, s.blank.id) {
            Some(_) => if s.tries < 4 {
                TurnView::Go(
                    Login { tries: (s.tries + 1) as u32, ..s },
                    relist_acts(),
                    AskView::Line,
                )
            } else {
                TurnView::Fault(LoginFault::StillListed)
            },
            None => match placement::slot(line, s.edit.id) {
                None => TurnView::Fault(LoginFault::NotListed),
                Some(k) => {
                    let t = Login { stage: Stage::Asked, slot: wrapped(k) as u32, ..s };
                    TurnView::Go(t, closing_acts(t), AskView::Line)
                },
            },
        },
        Stage::Asked => match placement::dialog_placement(line) {
            None => TurnView::Fault(LoginFault::NoDialog),
            Some(d) => TurnView::Go(
                Login { stage: Stage::Over, ..s },
                insist_acts(s, d),
                AskView::Over,
            ),
        },
        _ => TurnView::Fault(LoginFault::OutOfStep),
    }
}

/// The turn that a wait gives, by whether what was waited for came.
pub open spec fn seen_turn(s: Login, seen: bool) -> TurnView {
    match s.stage {
        Stage::Arrived => if seen {
            TurnView::Go(Login { stage: Stage::Font, ..s }, arrived_acts(s), AskView::Nothing)
        } else {
            TurnView::Fault(LoginFault::Drifted)
        },
        Stage::Clip => if seen {
            TurnView::Go(Login { stage: Stage::Popup, ..s }, clip_acts(s), AskView::Line)
        } else if s.tries < 10 {
            TurnView::Go(
                Login { tries: (s.tries + 1) as u32, ..s },
                retry_acts(),
                AskView::Within("nitrox.clip"@, 3),
            )
        } else {
            TurnView::Fault(LoginFault::NoClip)
        },
        _ => TurnView::Fault(LoginFault::OutOfStep),
    }
}

/// The turn where nothing was asked.
pub open spec fn plain_turn(s: Login) -> TurnView {
    match s.stage {
        Stage::Start => TurnView::Go(
            Login { stage: Stage::Theme, ..s },
            start_acts(),
            AskView::Line,
        ),
        Stage::Overview => TurnView::Go(
            Login { stage: Stage::Sticky, ..s },
            overview_acts(),
            AskView::Line,
        ),
        Stage::Drags => TurnView::Go(
            Login { stage: Stage::Burst, ..s },
            drags_acts(s),
            AskView::Nothing,
        ),
        Stage::Burst => TurnView::Go(
            Login { stage: Stage::Arrived, ..s },
            burst_acts(),
            AskView::Within(burst_line(), 20),
        ),
        Stage::Font => if s.px != THEME_FONT_PX {
            TurnView::Fault(LoginFault::WrongFont(s.px))
        } else {
            TurnView::Go(Login { stage: Stage::Listed, ..s }, font_acts(), AskView::Line)
        },
        Stage::Snap => TurnView::Go(
            Login { stage: Stage::Tab, ..s },
            snap_acts(s),
            AskView::Line,
        ),
        _ => TurnView::Fault(LoginFault::OutOfStep),
    }
}

/// The turn that an answer gives.
pub open spec fn turn_of(s: Login, a: AnswerView) -> TurnView {
    match a {
        AnswerView::Line(line) => line_turn(s, line),
        AnswerView::Seen(seen) => seen_turn(s, seen),
        AnswerView::Nothing => plain_turn(s),
    }
}

/// What a turn came to, over what it holds.
pub open spec fn came_to(s: Login, r: Result<(Script, Ask), LoginFault>) -> TurnView {
    match r {
        Ok(g) => TurnView::Go(s, g.0@, g.1@),
        Err(f) => TurnView::Fault(f),
    }
}

/// The session of which nothing is known: at the start, and with every number zero.
pub open spec fn unknown() -> Login {
    let none = Window { id: 0, x: 0, y: 0, w: 0, h: 0 };
    Login {
        stage: Stage::Start,
        px: 0,
        wallpaper: 0,
        work: Area { x: 0, y: 0, w: 0, h: 0 },
        screen_w: 0,
        screen_h: 0,
        first: 0,
        term: none,
        files: none,
        edit: none,
        blank: none,
        slot: 0,
        tries: 0,
    }
}

impl Login {
    /// A session of which nothing is known.
    pub fn new() -> (r: Self)
        ensures
            r == unknown(),
    {
        let none = Window { id: 0, x: 0, y: 0, w: 0, h: 0 };
        Login {
            stage: Stage::Start,
            px: 0,
            wallpaper: 0,
            work: Area { x: 0, y: 0, w: 0, h: 0 },
            screen_w: 0,
            screen_h: 0,
            first: 0,
            term: none,
            files: none,
            edit: none,
            blank: none,
            slot: 0,
            tries: 0,
        }
    }

    fn read_early(&mut self, line: &str) -> (r: Result<(Script, Ask), LoginFault>)
        requires
            old(self).stage is Theme || old(self).stage is Wallpaper || old(self).stage is WorkArea
                || old(self).stage is Placed || old(self).stage is Sized || old(self).stage is Replaced
                || old(self).stage is Resized || old(self).stage is Sticky,
        ensures
            r is Ok ==> came_to(*final(self), r) == line_turn(*old(self), line@),
            r is Err ==> line_turn(*old(self), line@) == TurnView::Fault(r->Err_0),
    {
        match self.stage {
            Stage::Theme => match read_font_size(line) {
                None => Err(LoginFault::NoFont),
                Some(px) => {
                    self.px = px;
                    self.stage = Stage::Wallpaper;
                    Ok((theme_script(line), Ask::Line))
                },
            },
            Stage::Wallpaper => match read_leading_id(line) {
                None => Err(LoginFault::NoWallpaper),
                Some(id) => {
                    self.wallpaper = id;
                    self.stage = Stage::WorkArea;
                    Ok((wallpaper_script(), Ask::Line))
                },
            },
            Stage::WorkArea => match placement::parse_work_area(line) {
                None => Err(LoginFault::NoWorkArea),
                Some(a) => {
                    if a.3 >= a.5 {
                        return Err(LoginFault::WholeScreen);
                    }
                    self.work = Area { x: a.0, y: a.1, w: a.2, h: a.3 };
                    self.screen_w = a.4;
                    self.screen_h = a.5;
                    self.stage = Stage::Placed;
                    Ok((work_script(*self), Ask::Line))
                },
            },
            Stage::Placed => match placement::parse_placement(line) {
                None => Err(LoginFault::NoPlacement),
                Some(p) => {
                    self.first = p.0;
                    self.term = Window { id: p.0, x: p.1, y: p.2, w: 0, h: 0 };
                    self.stage = Stage::Sized;
                    Ok((placed_script(*self), Ask::Line))
                },
            },
            Stage::Sized => match placement::parse_geometry(line) {
                None => Err(LoginFault::NoGeometry),
                Some(g) => {
                    self.term = Window {
                        id: self.term.id,
                        x: self.term.x,
                        y: self.term.y,
                        w: g.0,
                        h: g.1,
                    };
                    self.stage = Stage::Replaced;
                    Ok((sized_script(*self), Ask::Line))
                },
            },
            Stage::Replaced => match placement::parse_placement(line) {
                None => Err(LoginFault::NoPlacement),
                Some(p) => {
                    self.term = Window { id: p.0, x: p.1, y: p.2, w: 0, h: 0 };
                    self.stage = Stage::Resized;
                    Ok((replaced_script(*self), Ask::Line))
                },
            },
            Stage::Resized => match placement::parse_geometry(line) {
                None => Err(LoginFault::NoGeometry),
                Some(g) => {
                    self.term = Window {
                        id: self.term.id,
                        x: self.term.x,
                        y: self.term.y,
                        w: g.0,
                        h: g.1,
                    };
                    self.stage = Stage::Overview;
                    Ok((resized_script(), Ask::Nothing))
                },
            },
            _ => {
                if reads_window(line, self.wallpaper) {
                    let o = sticky_script(*self);
                    self.stage = Stage::Drags;
                    Ok((o, Ask::Nothing))
                } else {
                    Err(LoginFault::NotSticky)
                }
            },
        }
    }

    fn read_files(&mut self, line: &str) -> (r: Result<(Script, Ask), LoginFault>)
        requires
            old(self).stage is Listed || old(self).stage is Files || old(self).stage is Edit
                || old(self).stage is Tab || old(self).stage is Switched || old(self).stage is Paste
                || old(self).stage is Popup,
        ensures
            r is Ok ==> came_to(*final(self), r) == line_turn(*old(self), line@),
            r is Err ==> line_turn(*old(self), line@) == TurnView::Fault(r->Err_0),
    {
        match self.stage {
            Stage::Listed => {
                self.stage = Stage::Files;
                Ok((listed_script(line), Ask::Line))
            },
            Stage::Files => match placement::parse_geometry_line(line) {
                None => Err(LoginFault::NoGeometry),
                Some(g) => {
                    self.files = Window { id: g.0, x: g.1, y: g.2, w: g.3, h: g.4 };
                    self.stage = Stage::Edit;
                    Ok((files_script(), Ask::Line))
                },
            },
            Stage::Edit => match placement::parse_geometry_line(line) {
                None => Err(LoginFault::NoGeometry),
                Some(g) => {
                    self.edit = Window { id: g.0, x: g.1, y: g.2, w: g.3, h: g.4 };
                    self.stage = Stage::Snap;
                    Ok((edit_script(), Ask::Nothing))
                },
            },
            Stage::Tab => {
                if mentions(line, "other.txt") {
                    let o = tab_script(*self);
                    self.stage = Stage::Switched;
                    Ok((o, Ask::Line))
                } else {
                    Err(LoginFault::NotCurrent)
                }
            },
            Stage::Switched => {
                if mentions(line, "notes.txt") {
                    self.stage = Stage::Paste;
                    Ok((switched_script(), Ask::Line))
                } else {
                    Err(LoginFault::NotSwitched)
                }
            },
            Stage::Paste => match placement::parse_placement(line) {
                None => Err(LoginFault::NoPlacement),
                Some(p) => {
                    self.tries = 1;
                    self.stage = Stage::Clip;
                    Ok((paste_script(p), Ask::Within(String::from_str("nitrox.clip"), 3)))
                },
            },
            _ => match placement::parse_menu_popup(line) {
                None => Err(LoginFault::NoPopup),
                Some(p) => {
                    self.stage = Stage::Blank;
                    Ok((popup_script(p), Ask::Line))
                },
            },
        }
    }

    fn read_late(&mut self, line: &str) -> (r: Result<(Script, Ask), LoginFault>)
        requires
            old(self).stage is Blank || old(self).stage is Dialog || old(self).stage is Second
                || old(self).stage is Closing || old(self).stage is Asked,
        ensures
            r is Ok ==> came_to(*final(self), r) == line_turn(*old(self), line@),
            r is Err ==> line_turn(*old(self), line@) == TurnView::Fault(r->Err_0),
    {
        match self.stage {
            Stage::Blank => match placement::parse_placement(line) {
                None => Err(LoginFault::NoPlacement),
                Some(p) => {
                    self.blank = Window { id: p.0, x: p.1, y: p.2, w: 560, h: 420 };
                    self.stage = Stage::Dialog;
                    Ok((blank_script(*self), Ask::Line))
                },
            },
            Stage::Dialog => match placement::parse_dialog_placement(line) {
                None => Err(LoginFault::NoDialog),
                Some(d) => match check_question(*self, d) {
                    Some(f) => Err(f),
                    None => {
                        let o = kept_script(*self, d);
                        self.stage = Stage::Second;
                        Ok((o, Ask::Line))
                    },
                },
            },
            Stage::Second => match placement::parse_dialog_placement(line) {
                None => Err(LoginFault::NoDialog),
                Some(d) => {
                    self.tries = 1;
                    self.stage = Stage::Closing;
                    Ok((discard_script(d), Ask::Line))
                },
            },
            Stage::Closing => {
                if placement::taskbar_slot(line, self.blank.id).is_some() {
                    if self.tries < 4 {
                        self.tries = self.tries + 1;
                        return Ok((relist_script(), Ask::Line));
                    }
                    return Err(LoginFault::StillListed);
                }
                match placement::taskbar_slot(line, self.edit.id) {
                    None => Err(LoginFault::NotListed),
                    Some(k) => {
                        self.slot = (k as u64 % 0x1_0000_0000) as u32;
                        self.stage = Stage::Asked;
                        Ok((closing_script(*self), Ask::Line))
                    },
                }
            },
            _ => match placement::parse_dialog_placement(line) {
                None => Err(LoginFault::NoDialog),
                Some(d) => {
                    let o = insist_script(*self, d);
                    self.stage = Stage::Over;
                    Ok((o, Ask::Over))
                },
            },
        }
    }

    fn read_seen(&mut self, seen: bool) -> (r: Result<(Script, Ask), LoginFault>)
        ensures
            r is Ok ==> came_to(*final(self), r) == seen_turn(*old(self), seen),
            r is Err ==> seen_turn(*old(self), seen) == TurnView::Fault(r->Err_0),
    {
        match self.stage {
            Stage::Arrived => {
                if seen {
                    let o = arrived_script(*self);
                    self.stage = Stage::Font;
                    Ok((o, Ask::Nothing))
                } else {
                    Err(LoginFault::Drifted)
                }
            },
            Stage::Clip => {
                if seen {
                    let o = clip_script(*self);
                    self.stage = Stage::Popup;
                    Ok((o, Ask::Line))
                } else if self.tries < 10 {
                    self.tries = self.tries + 1;
                    Ok((retry_script(), Ask::Within(String::from_str("nitrox.clip"), 3)))
                } else {
                    Err(LoginFault::NoClip)
                }
            },
            _ => Err(LoginFault::OutOfStep),
        }
    }

    fn go_on(&mut self) -> (r: Result<(Script, Ask), LoginFault>)
        ensures
            r is Ok ==> came_to(*final(self), r) == plain_turn(*old(self)),
            r is Err ==> plain_turn(*old(self)) == TurnView::Fault(r->Err_0),
    {
        match self.stage {
            Stage::Start => {
                self.stage = Stage::Theme;
                Ok((start_script(), Ask::Line))
            },
            Stage::Overview => {
                self.stage = Stage::Sticky;
                Ok((overview_script(), Ask::Line))
            },
            Stage::Drags => {
                let o = drags_script(*self);
                self.stage = Stage::Burst;
                Ok((o, Ask::Nothing))
            },
            Stage::Burst => {
                self.stage = Stage::Arrived;
                let l = script::click_line(1279 + 120 * -6, 799 + 120 * -3);
                Ok((burst_script(), Ask::Within(l, 20)))
            },
            Stage::Font => {
                if self.px != THEME_FONT_PX {
                    Err(LoginFault::WrongFont(self.px))
                } else {
                    self.stage = Stage::Listed;
                    Ok((font_script(), Ask::Line))
                }
            },
            Stage::Snap => {
                let o = snap_script(*self);
                self.stage = Stage::Tab;
                Ok((o, Ask::Line))
            },
            _ => Err(LoginFault::OutOfStep),
        }
    }

    /// Takes an answer, and gives the acts that come next and what is asked when they are done. On a
    /// fault the run is over.
    pub fn turn(&mut self, a: &Answer) -> (r: Result<(Script, Ask), LoginFault>)
        ensures
            r is Ok ==> came_to(*final(self), r) == turn_of(*old(self), a@),
            r is Err ==> turn_of(*old(self), a@) == TurnView::Fault(r->Err_0),
    {
        match a {
            Answer::Line(line) => match self.stage {
                Stage::Theme | Stage::Wallpaper | Stage::WorkArea | Stage::Placed | Stage::Sized
                | Stage::Replaced | Stage::Resized | Stage::Sticky => self.read_early(line.as_str()),
                Stage::Listed | Stage::Files | Stage::Edit | Stage::Tab | Stage::Switched
                | Stage::Paste | Stage::Popup => self.read_files(line.as_str()),
                Stage::Blank | Stage::Dialog | Stage::Second | Stage::Closing
                | Stage::Asked => self.read_late(line.as_str()),
                _ => Err(LoginFault::OutOfStep),
            },
            Answer::Seen(seen) => self.read_seen(*seen),
            Answer::Nothing => self.go_on(),
        }
    }
}

/// How many turns at most lie before the run's end.
pub open spec fn turns_left(s: Login) -> int {
    match s.stage {
        Stage::Start => 60,
        Stage::Theme => 59,
        Stage::Wallpaper => 58,
        Stage::WorkArea => 57,
        Stage::Placed => 56,
        Stage::Sized => 55,
        Stage::Replaced => 54,
        Stage::Resized => 53,
        Stage::Overview => 52,
        Stage::Sticky => 51,
        Stage::Drags => 50,
        Stage::Burst => 49,
        Stage::Arrived => 48,
        Stage::Font => 47,
        Stage::Listed => 46,
        Stage::Files => 45,
        Stage::Edit => 44,
        Stage::Snap => 43,
        Stage::Tab => 42,
        Stage::Switched => 41,
        Stage::Paste => 40,
        Stage::Clip => if s.tries <= 10 {
            39 - s.tries
        } else {
            29
        },
        Stage::Popup => 28,
        Stage::Blank => 27,
        Stage::Dialog => 26,
        Stage::Second => 25,
        Stage::Closing => if s.tries <= 4 {
            24 - s.tries
        } else {
            20
        },
        Stage::Asked => 19,
        Stage::Over => 0,
    }
}

/// Every turn that is no fault brings the run nearer to its end, whatever the machine answers; and
/// the run ends only when it is over.
pub proof fn law_the_run_ends(s: Login, a: AnswerView)
    ensures
        turn_of(s, a) matches TurnView::Go(t, _, ask) ==> 0 <= turns_left(t) < turns_left(s) && (
        ask is Over <==> t.stage is Over),
{
    match a {
        AnswerView::Line(line) => lemma_line_turn_ends(s, line),
        AnswerView::Seen(seen) => {},
        AnswerView::Nothing => {},
    }
}

#[verifier::spinoff_prover]
#[verifier::rlimit(60)]
proof fn lemma_line_turn_ends(s: Login, line: Seq<char>)
    ensures
        line_turn(s, line) matches TurnView::Go(t, _, ask) ==> 0 <= turns_left(t) < turns_left(s)
            && (ask is Over <==> t.stage is Over),
{
}

/// What the transcript of a login shows to be wrong.
#[derive(Debug, Clone, Copy, PartialEq, Eq)]
pub enum AfterFault {
    /// The terminal was never resized.
    NoReflow,
    /// A resize lost lines: how many there were, how many were left, and how many were evicted.
    LostLines(u32, u32, u32),
    /// The terminal's grid did not grow.
    NoGrowth(Option<(u32, u32)>),
    /// The editor was destroyed without having been asked.
    EditorNotAsked,
    /// The first terminal was never asked to close.
    TerminalNotAsked,
    /// The modal was not dismissed by the compositor.
    NotDismissed,
    /// The terminal's shell outlived it.
    ShellOutlived,
    /// The close button went through the shell.
    AskedTheShell,
    /// The two sessions did not run beside each other.
    Sessions(SessionsFault),
}

/// What the shell prints when it asks a window to close.
pub open spec fn asked_line(id: u32) -> Seq<char> {
    "asked window "@ + number::written(id as int) + " to close"@
}

/// The first resize that lost lines.
pub open spec fn first_loss(rs: Seq<(u32, u32, u32)>) -> Option<(u32, u32, u32)>
    decreases rs.len(),
{
    if rs.len() == 0 {
        None
    } else if first_loss(rs.drop_last()) is Some {
        first_loss(rs.drop_last())
    } else if rs.last().1 + rs.last().2 != rs.last().0 {
        Some(rs.last())
    } else {
        None
    }
}

/// The grid grew beyond the one that a terminal starts with.
pub open spec fn has_grown(g: Option<(u32, u32)>) -> bool {
    g matches Some(s) && s.0 > 80 && s.1 > 24
}

/// What the transcript of a login shows to be wrong, if anything, by its resizes and its grid.
pub open spec fn after_fault(
    t: Seq<char>,
    rs: Seq<(u32, u32, u32)>,
    grid: Option<(u32, u32)>,
    s: Login,
) -> Option<AfterFault> {
    if rs.len() == 0 {
        Some(AfterFault::NoReflow)
    } else if first_loss(rs) is Some {
        let l = first_loss(rs)->0;
        Some(AfterFault::LostLines(l.0, l.1, l.2))
    } else if !has_grown(grid) {
        Some(AfterFault::NoGrowth(grid))
    } else if !text::contains(t, "desktop-shell: "@ + asked_line(s.edit.id)) {
        Some(AfterFault::EditorNotAsked)
    } else if !text::contains(t, "desktop-shell: "@ + asked_line(s.first)) {
        Some(AfterFault::TerminalNotAsked)
    } else if !text::contains(t, "compositor: dismissed win="@) {
        Some(AfterFault::NotDismissed)
    } else if !text::contains(t, "nxsh: terminal closed"@) {
        Some(AfterFault::ShellOutlived)
    } else if text::contains(t, asked_line(s.term.id)) {
        Some(AfterFault::AskedTheShell)
    } else {
        match transcript::sessions_fault(t) {
            Some(f) => Some(AfterFault::Sessions(f)),
            None => None,
        }
    }
}

fn find_loss(rs: &Vec<(u32, u32, u32)>) -> (r: Option<(u32, u32, u32)>)
    ensures
        r == first_loss(rs@),
{
    let mut i: usize = 0;
    while i < rs.len()
        invariant
            i <= rs.len(),
            first_loss(rs@.take(i as int)) is None,
        decreases rs.len() - i,
    {
        assert(rs@.take(i + 1).drop_last() =~= rs@.take(i as int));
        let x = rs[i];
        if !transcript::reflow_accounts_for_every_line(x) {
            proof {
                lemma_first_loss(rs@, i + 1);
            }
            return Some(x);
        }
        i = i + 1;
    }
    assert(rs@.take(i as int) =~= rs@);
    None
}

proof fn lemma_first_loss(rs: Seq<(u32, u32, u32)>, k: int)
    requires
        0 <= k <= rs.len(),
        first_loss(rs.take(k)) is Some,
    ensures
        first_loss(rs) == first_loss(rs.take(k)),
    decreases rs.len(),
{
    if k == rs.len() {
        assert(rs.take(k) =~= rs);
    } else {
        assert(rs.drop_last().take(k) =~= rs.take(k));
        lemma_first_loss(rs.drop_last(), k);
    }
}

/// Checks the transcript of a login that went through.
pub fn check_after(transcript: &str, s: Login) -> (r: Result<(), AfterFault>)
    ensures
        match after_fault(
            transcript@,
            transcript::reflows(text::lines(transcript@)),
            transcript::largest_grid(text::lines(transcript@)),
            s,
        ) {
            Some(f) => r == Err::<(), AfterFault>(f),
            None => r is Ok,
        },
{
    let rs = transcript::transcript_reflows(transcript);
    let grid = transcript::transcript_grid(transcript);
    if rs.len() == 0 {
        return Err(AfterFault::NoReflow);
    }
    match find_loss(&rs) {
        Some(l) => return Err(AfterFault::LostLines(l.0, l.1, l.2)),
        None => {},
    }
    let grown = match grid {
        Some((c, r)) => c > 80 && r > 24,
        None => false,
    };
    if !grown {
        return Err(AfterFault::NoGrowth(grid));
    }
    let edit = asked_text(s.edit.id);
    let first = asked_text(s.first);
    let term = asked_text(s.term.id);
    let edit = script::then_text(String::from_str("desktop-shell: "), edit.as_str());
    let first = script::then_text(String::from_str("desktop-shell: "), first.as_str());
    if !mentions(transcript, edit.as_str()) {
        return Err(AfterFault::EditorNotAsked);
    }
    if !mentions(transcript, first.as_str()) {
        return Err(AfterFault::TerminalNotAsked);
    }
    if !mentions(transcript, "compositor: dismissed win=") {
        return Err(AfterFault::NotDismissed);
    }
    if !mentions(transcript, "nxsh: terminal closed") {
        return Err(AfterFault::ShellOutlived);
    }
    if mentions(transcript, term.as_str()) {
        return Err(AfterFault::AskedTheShell);
    }
    match transcript::check_two_sessions(transcript) {
        Err(f) => Err(AfterFault::Sessions(f)),
        Ok(_) => Ok(()),
    }
}

fn asked_text(id: u32) -> (r: String)
    ensures
        r@ == asked_line(id),
{
    let s = script::then_number(String::from_str("asked window "), id as i64);
    script::then_text(s, " to close")
}

/// A login whose transcript passes lost no line of its terminal, and closed no window unasked.
pub proof fn law_a_passing_login_loses_no_line(
    t: Seq<char>,
    rs: Seq<(u32, u32, u32)>,
    grid: Option<(u32, u32)>,
    s: Login,
    i: int,
)
    requires
        after_fault(t, rs, grid, s) is None,
        0 <= i < rs.len(),
    ensures
        rs[i].1 + rs[i].2 == rs[i].0,
{
    lemma_no_loss(rs, i);
}

proof fn lemma_no_loss(rs: Seq<(u32, u32, u32)>, i: int)
    requires
        first_loss(rs) is None,
        0 <= i < rs.len(),
    ensures
        rs[i].1 + rs[i].2 == rs[i].0,
    decreases rs.len(),
{
    if i < rs.len() - 1 {
        lemma_no_loss(rs.drop_last(), i);
    }
}

} // verus!
