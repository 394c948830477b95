//! The terminal gate: the terminal measures its font as the host does, a keystroke reaches its shell,
//! and its menu is a window.

use vstd::prelude::*;

use crate::number;
use crate::placement;
use crate::script::ActView;
use crate::script::Script;
use crate::text;

verus! {

/// What the terminal says of its grid.
#[derive(Debug)]
pub struct Grid {
    /// The font's path.
    pub path: String,
    /// The width of a cell.
    pub w: u32,
    /// The height of a cell.
    pub h: u32,
    /// The font's size, without its unit.
    pub size: String,
}

/// Why the grid's line cannot be read.
#[derive(Debug, Clone, Copy, PartialEq, Eq, Structural)]
pub enum GridFault {
    /// No cell follows the font.
    NoCell,
    /// No size follows the cell.
    NoSize,
    /// The cell is not two numbers with an `x` between.
    NoExtent,
    /// A number of the cell cannot be read.
    BadNumber,
}

/// What the grid's line says, over what its strings hold.
pub struct GridView {
    pub path: Seq<char>,
    pub w: u32,
    pub h: u32,
    pub size: Seq<char>,
}

/// `s` without the `px` at its end, however often it stands there.
pub open spec fn without_unit(s: Seq<char>) -> Seq<char>
    decreases s.len(),
{
    if text::ends_with(s, "px"@) && "px"@.len() > 0 && s.len() >= "px"@.len() {
        without_unit(s.take(s.len() - "px"@.len()))
    } else {
        s
    }
}

/// What the grid's line says: `path, cell WxH at SIZEpx`.
pub open spec fn grid_line(line: Seq<char>) -> Result<GridView, GridFault> {
    match text::split_once(text::trim(line), ", cell "@) {
        None => Err(GridFault::NoCell),
        Some((path, rest)) => match text::split_once(rest, " at "@) {
            None => Err(GridFault::NoSize),
            Some((dims, size)) => match text::split_once(dims, "x"@) {
                None => Err(GridFault::NoExtent),
                Some((w, h)) => match (number::u32_of(w), number::u32_of(h)) {
                    (Some(w), Some(h)) => Ok(GridView { path, w, h, size: without_unit(size) }),
                    _ => Err(GridFault::BadNumber),
                },
            },
        },
    }
}

/// What a grid holds.
pub open spec fn grid_view(r: Result<Grid, GridFault>) -> Result<GridView, GridFault> {
    match r {
        Ok(g) => Ok(GridView { path: g.path@, w: g.w, h: g.h, size: g.size@ }),
        Err(e) => Err(e),
    }
}

fn strip_unit(s: &[char]) -> (r: &[char])
    ensures
        r@ == without_unit(s@),
{
    proof {
        reveal_strlit("px");
    }
    let mut n: usize = s.len();
    assert(s@.take(n as int) =~= s@);
    while n >= 2 && s[n - 2] == 'p' && s[n - 1] == 'x'
        invariant
            n <= s.len(),
            "px"@.len() == 2,
            "px"@[0] == 'p',
            "px"@[1] == 'x',
            without_unit(s@) == without_unit(s@.take(n as int)),
        decreases n,
    {
        let ghost t = s@.take(n as int);
        assert(t.skip(n - 2) =~= "px"@);
        assert(text::ends_with(t, "px"@));
        assert(t.take(n - 2) =~= s@.take(n - 2));
        n = n - 2;
    }
    proof {
        let t = s@.take(n as int);
        if text::ends_with(t, "px"@) {
            assert(t.skip(n - 2) == "px"@);
            assert(t.skip(n - 2)[0] == t[n - 2]);
            assert(t.skip(n - 2)[1] == t[n - 1]);
        }
    }
    text::take(s, n)
}

/// Reads the grid's line.
pub fn parse_grid_line(line: &str) -> (r: Result<Grid, GridFault>)
    ensures
        grid_view(r) == grid_line(line@),
{
    let c = text::chars_of(line);
    match text::cut(text::trimmed(c.as_slice()), ", cell ") {
        None => Err(GridFault::NoCell),
        Some((path, rest)) => match text::cut(rest, " at ") {
            None => Err(GridFault::NoSize),
            Some((dims, size)) => match text::cut(dims, "x") {
                None => Err(GridFault::NoExtent),
                Some((w, h)) => match (number::parse_u32(w), number::parse_u32(h)) {
                    (Some(w), Some(h)) => Ok(
                        Grid {
                            path: text::string_of(path),
                            w,
                            h,
                            size: text::string_of(strip_unit(size)),
                        },
                    ),
                    _ => Err(GridFault::BadNumber),
                },
            },
        },
    }
}

/// Whether the guest measured the cell that the host measures from the same font.
pub fn cell_agrees(grid: &Grid, cell_w: u32, cell_h: u32) -> (r: bool)
    ensures
        r == (grid.w == cell_w && grid.h == cell_h),
{
    grid.w == cell_w && grid.h == cell_h
}

/// The first acts: the grid's line is waited for.
#[verifier::opaque]
pub open spec fn boot_acts() -> Seq<ActView> {
    seq![
        ActView::Expect("nxterm: grid font "@),
    ]
}

pub fn boot_script() -> (r: Script)
    ensures
        r@ == boot_acts(),
{
    reveal(boot_acts);
    let mut o = Script::new();
    o.expect("nxterm: grid font ");
    o
}

/// The acts once the font is known: a command is typed key by key, answered, and the menu opened.
#[verifier::opaque]
pub open spec fn typing_acts() -> Seq<ActView> {
    seq![
        ActView::Expect("nxterm: grid> nxsh: interactive shell"@),
        ActView::Expect("ui-testclient: PASSED"@),
        ActView::Expect("input-testclient: idle before the window phase"@),
        ActView::Click(397, 295),
        ActView::Expect("nxterm: clicked"@),
        ActView::Key("w"@, true),
        ActView::Key("w"@, false),
        ActView::Expect("nxterm: grid> /> w"@),
        ActView::Key("h"@, true),
        ActView::Key("h"@, false),
        ActView::Expect("nxterm: grid> /> wh"@),
        ActView::Key("o"@, true),
        ActView::Key("o"@, false),
        ActView::Expect("nxterm: grid> /> who"@),
        ActView::Key("a"@, true),
        ActView::Key("a"@, false),
        ActView::Expect("nxterm: grid> /> whoa"@),
        ActView::Key("m"@, true),
        ActView::Key("m"@, false),
        ActView::Expect("nxterm: grid> /> whoam"@),
        ActView::Key("i"@, true),
        ActView::Key("i"@, false),
        ActView::Expect("nxterm: grid> /> whoami"@),
        ActView::Key("ret"@, true),
        ActView::Key("ret"@, false),
        ActView::Expect("nxterm: grid> /> whoami"@),
        ActView::Expect("nxterm: grid> "@),
        ActView::Key("f1"@, true),
        ActView::Key("f1"@, false),
        ActView::Expect("nxterm: menu popup "@),
    ]
}

pub fn typing_script() -> (r: Script)
    ensures
        r@ == typing_acts(),
{
    reveal(typing_acts);
    let mut o = Script::new();
    o.expect("nxterm: grid> nxsh: interactive shell");
    o.expect("ui-testclient: PASSED");
    o.expect("input-testclient: idle before the window phase");
    o.click(397, 295);
    o.expect("nxterm: clicked");
    o.key("w", true);
    o.key("w", false);
    o.expect("nxterm: grid> /> w");
    o.key("h", true);
    o.key("h", false);
    o.expect("nxterm: grid> /> wh");
    o.key("o", true);
    o.key("o", false);
    o.expect("nxterm: grid> /> who");
    o.key("a", true);
    o.key("a", false);
    o.expect("nxterm: grid> /> whoa");
    o.key("m", true);
    o.key("m", false);
    o.expect("nxterm: grid> /> whoam");
    o.key("i", true);
    o.key("i", false);
    o.expect("nxterm: grid> /> whoami");
    o.key("ret", true);
    o.key("ret", false);
    o.expect("nxterm: grid> /> whoami");
    o.expect("nxterm: grid> ");
    o.key("f1", true);
    o.key("f1", false);
    o.expect("nxterm: menu popup ");
    o
}

/// Why the menu cannot be used.
#[derive(Debug, Clone, Copy, PartialEq, Eq, Structural)]
pub enum MenuFault {
    /// Its line cannot be read.
    Unreadable,
    /// It has no extent.
    NoExtent,
}

/// The place in the menu that is clicked: half-way across, and a quarter of the way down, so that it
/// is on the first item and not near the boundary between two.
pub open spec fn menu_place(p: (u32, i32, i32, u32, u32)) -> (int, int) {
    (
        p.1 + placement::fraction(placement::span(p.3), 2),
        p.2 + placement::fraction(placement::span(p.4), 4),
    )
}

/// The last acts: the menu's row is hovered over and chosen.
pub open spec fn menu_acts(x: int, y: int) -> Seq<ActView> {
    seq![
        ActView::MoveTo(x, y),
        ActView::Expect("nxterm: menu hover 2"@),
        ActView::At(x, y),
        ActView::Click(x, y),
        ActView::Expect("nxterm: menu chose Clear"@),
    ]
}

/// The last acts, by the menu's line.
pub fn menu_script(line: &str) -> (r: Result<Script, MenuFault>)
    ensures
        match placement::window_line(line@, "at"@) {
            None => r == Err::<Script, MenuFault>(MenuFault::Unreadable),
            Some(p) => if p.3 == 0 || p.4 == 0 {
                r == Err::<Script, MenuFault>(MenuFault::NoExtent)
            } else {
                r is Ok && (r->Ok_0)@ == menu_acts(menu_place(p).0, menu_place(p).1)
            },
        },
{
    match placement::parse_popup_line(line) {
        None => Err(MenuFault::Unreadable),
        Some(p) => {
            if p.3 == 0 || p.4 == 0 {
                return Err(MenuFault::NoExtent);
            }
            let x: i64 = p.1 as i64 + placement::fraction_of(placement::span_of(p.3), 2);
            let y: i64 = p.2 as i64 + placement::fraction_of(placement::span_of(p.4), 4);
            let mut o = Script::new();
            o.move_to(x, y);
            o.expect("nxterm: menu hover 2");
            o.at(x, y);
            o.click(x, y);
            o.expect("nxterm: menu chose Clear");
            Ok(o)
        },
    }
}

/// The place that is clicked lies inside a menu whose sizes are distances.
pub proof fn law_the_click_lies_in_the_menu(p: (u32, i32, i32, u32, u32))
    requires
        0 < p.3 <= i32::MAX,
        0 < p.4 <= i32::MAX,
    ensures
        p.1 <= menu_place(p).0 < p.1 + p.3,
        p.2 <= menu_place(p).1 < p.2 + p.4,
{
}

/// The grid's line reads back as the font's path, the cell and the size, without its unit.
#[verifier::spinoff_prover]
#[verifier::rlimit(40)]
pub proof fn law_a_grid_line_reads_back(path: Seq<char>, w: u32, h: u32, size: nat)
    requires
        path.len() > 0,
        !text::is_space(path[0]),
        text::find(path + ", cell "@, ", cell "@) == Some(path.len() as int),
    ensures
        grid_line(
            path + ", cell "@ + (number::numeral(w as nat, 10) + "x"@ + number::numeral(h as nat, 10)
                + " at "@ + (number::numeral(size, 10) + "px"@)),
        ) == Ok::<GridView, GridFault>(GridView { path, w, h, size: number::numeral(size, 10) }),
{
    assert(", cell "@.len() == 7) by {
        reveal_strlit(", cell ");
    }
    assert("x"@.len() == 1 && "x"@[0] == 'x') by {
        reveal_strlit("x");
    }
    assert(" at "@.len() == 4 && " at "@[0] == ' ') by {
        reveal_strlit(" at ");
    }
    assert("px"@.len() == 2 && "px"@[1] == 'x') by {
        reveal_strlit("px");
    }
    let a = number::numeral(w as nat, 10);
    let b = number::numeral(h as nat, 10);
    let c = number::numeral(size, 10);
    number::law_numeral_reads_back(w as nat, 10);
    number::law_numeral_reads_back(h as nat, 10);
    assert(number::digit_value(a[0]) < 10);
    assert(number::digit_value(b[0]) < 10);
    let dims = a + "x"@ + b;
    let sized = c + "px"@;
    let rest = dims + " at "@ + sized;
    let line = path + ", cell "@ + rest;
    assert(line[0] == path[0]);
    assert(line.last() == 'x');
    text::lemma_trim_plain(line);
    text::lemma_cut_first(path, ", cell "@, rest);
    assert forall|i: int| 0 <= i < a.len() implies a[i] != 'x' && #[trigger] a[i] != ' ' by {
        assert(number::digit_value(a[i]) < 10);
    }
    assert forall|i: int| 0 <= i < dims.len() implies dims[i] != ' ' by {
        if i < a.len() {
            assert(dims[i] == a[i]);
        } else if i > a.len() {
            assert(dims[i] == b[i - a.len() - 1]);
            assert(number::digit_value(b[i - a.len() - 1]) < 10);
        }
    }
    text::lemma_cut(dims, " at "@, sized);
    text::lemma_cut(a, "x"@, b);
    lemma_unit(size);
}

proof fn lemma_unit(size: nat)
    ensures
        without_unit(number::numeral(size, 10) + "px"@) == number::numeral(size, 10),
{
    reveal_strlit("px");
    let c = number::numeral(size, 10);
    let sized = c + "px"@;
    number::law_numeral_reads_back(size, 10);
    text::lemma_stands(c, "px"@, Seq::empty());
    assert(sized.take(sized.len() - 2) =~= c);
    assert(number::digit_value(c[c.len() - 1]) < 10);
    assert(!text::ends_with(c, "px"@)) by {
        if text::ends_with(c, "px"@) {
            assert(c.skip(c.len() - 2)[1] == c[c.len() - 1]);
        }
    }
    assert(without_unit(c) == c);
}

/// The pointer hovers where it then clicks: in the middle of the menu's width, and in the middle of the
/// first of two items of half its height.
pub proof fn law_the_first_item_is_chosen(p: (u32, i32, i32, u32, u32))
    requires
        0 < p.3 <= i32::MAX,
        0 < p.4 <= i32::MAX,
    ensures
        ({
            let at = menu_place(p);
            let acts = menu_acts(at.0, at.1);
            &&& 0 <= p.3 - 2 * (at.0 - p.1) <= 1
            &&& 0 <= p.4 - 4 * (at.1 - p.2) <= 3
            &&& acts[0] == ActView::MoveTo(at.0, at.1)
            &&& acts[2] == ActView::At(at.0, at.1)
            &&& acts[3] == ActView::Click(at.0, at.1)
        }),
{
}

} // verus!
