//! The display gate: what the guest put on its screen is compared, pixel for pixel, with what the host
//! renders.

use vstd::prelude::*;

use crate::script;
use crate::script::ActView;
use crate::script::Script;
use crate::wire;

verus! {

/// A colour.
#[derive(Debug, Clone, Copy, PartialEq, Eq, Structural)]
pub struct Rgb {
    pub r: u8,
    pub g: u8,
    pub b: u8,
}

/// A picture: three bytes for each pixel, row by row.
#[derive(Debug)]
pub struct Raster {
    pub w: u32,
    pub h: u32,
    pub rgb: Vec<u8>,
}

impl Raster {
    /// There are bytes for every pixel.
    pub open spec fn wf(&self) -> bool {
        self.rgb@.len() >= self.w * self.h * 3
    }

    /// The pixel at a place.
    pub open spec fn at(&self, x: int, y: int) -> Rgb {
        let i = (y * self.w + x) * 3;
        Rgb { r: self.rgb@[i], g: self.rgb@[i + 1], b: self.rgb@[i + 2] }
    }

    /// The pixel at a place.
    pub fn pixel(&self, x: u32, y: u32) -> (r: Rgb)
        requires
            self.wf(),
            x < self.w,
            y < self.h,
        ensures
            r == self.at(x as int, y as int),
    {
        proof {
            lemma_inside(self.w as int, self.h as int, x as int, y as int);
        }
        let len: usize = self.rgb.len();
        let i: usize = ((y as u64 * self.w as u64 + x as u64) * 3) as usize;
        assert(i == (y * self.w + x) * 3);
        Rgb { r: self.rgb[i], g: self.rgb[i + 1], b: self.rgb[i + 2] }
    }
}

/// The bytes of a pixel inside a picture lie inside its bytes.
proof fn lemma_inside(w: int, h: int, x: int, y: int)
    requires
        0 <= x < w <= 0xFFFF_FFFF,
        0 <= y < h <= 0xFFFF_FFFF,
    ensures
        0 <= (y * w + x) * 3,
        (y * w + x) * 3 + 2 < w * h * 3,
        0 <= y * w <= 0xFFFF_FFFE * 0xFFFF_FFFF,
{
    assert(y * w + w <= h * w) by (nonlinear_arith)
        requires
            y + 1 <= h,
            w >= 0,
    ;
    assert(h * w == w * h) by (nonlinear_arith);
    assert(0 <= y * w <= 0xFFFF_FFFE * 0xFFFF_FFFF) by (nonlinear_arith)
        requires
            0 <= y <= 0xFFFF_FFFE,
            0 <= w <= 0xFFFF_FFFF,
    ;
}

/// A place at which two pictures differ.
#[derive(Debug, Clone, Copy, PartialEq, Eq, Structural)]
pub struct Mismatch {
    pub x: u32,
    pub y: u32,
    pub got: Rgb,
    pub want: Rgb,
}

/// What a comparison found.
#[derive(Debug, Clone, Copy, PartialEq, Eq, Structural)]
pub struct Diff {
    /// How many pixels were compared.
    pub compared: u64,
    /// How many of them differ.
    pub mismatches: u64,
    /// The first that differs.
    pub first: Option<Mismatch>,
}

/// What the first `n` pixels of `want` find in the top left of `screen`, row by row, without those
/// in the top left `skip_w` by `skip_h`.
pub open spec fn scanned(screen: Raster, want: Raster, skip_w: int, skip_h: int, n: int) -> (
    int,
    int,
    Option<Mismatch>,
)
    decreases n,
{
    if n <= 0 {
        (0, 0, None)
    } else {
        let front = scanned(screen, want, skip_w, skip_h, n - 1);
        let x = (n - 1) % (want.w as int);
        let y = (n - 1) / (want.w as int);
        if x < skip_w && y < skip_h {
            front
        } else if screen.at(x, y) == want.at(x, y) {
            (front.0 + 1, front.1, front.2)
        } else {
            (
                front.0 + 1,
                front.1 + 1,
                if front.2 is Some {
                    front.2
                } else {
                    Some(
                        Mismatch {
                            x: x as u32,
                            y: y as u32,
                            got: screen.at(x, y),
                            want: want.at(x, y),
                        },
                    )
                },
            )
        }
    }
}

/// What a comparison finds: nothing is compared where the screen is too small for what is wanted.
pub open spec fn diff(screen: Raster, want: Raster, skip_w: int, skip_h: int) -> (
    int,
    int,
    Option<Mismatch>,
) {
    if screen.w >= want.w && screen.h >= want.h {
        scanned(screen, want, skip_w, skip_h, want.w * want.h)
    } else {
        (0, 0, None)
    }
}

/// What a comparison found.
pub open spec fn found(d: Diff) -> (int, int, Option<Mismatch>) {
    (d.compared as int, d.mismatches as int, d.first)
}

proof fn lemma_place(n: int, w: int, h: int)
    requires
        0 <= n < w * h,
        0 < w,
    ensures
        0 <= n % w < w,
        0 <= n / w < h,
{
    assert(0 <= n % w < w && n == w * (n / w) + n % w && 0 <= n / w) by (nonlinear_arith)
        requires
            0 <= n,
            0 < w,
    ;
    assert(n / w < h) by (nonlinear_arith)
        requires
            n < w * h,
            n == w * (n / w) + n % w,
            0 <= n % w,
            0 < w,
    ;
}

/// Compares the top left of the screen with a picture, without a smaller picture that stands on top
/// of it.
pub fn compare_region(screen: &Raster, want: &Raster, skip_w: u32, skip_h: u32) -> (r: Diff)
    requires
        screen.wf(),
        want.wf(),
    ensures
        found(r) == diff(*screen, *want, skip_w as int, skip_h as int),
{
    let mut d = Diff { compared: 0, mismatches: 0, first: None };
    if screen.w < want.w || screen.h < want.h {
        return d;
    }
    assert(0 <= want.w * want.h <= 0xFFFF_FFFF * 0xFFFF_FFFF) by (nonlinear_arith)
        requires
            0 <= want.w <= 0xFFFF_FFFF,
            0 <= want.h <= 0xFFFF_FFFF,
    ;
    let total: u64 = want.w as u64 * want.h as u64;
    let mut n: u64 = 0;
    while n < total
        invariant
            n <= total,
            total == want.w * want.h,
            screen.wf(),
            want.wf(),
            screen.w >= want.w,
            screen.h >= want.h,
            d.compared <= n,
            d.mismatches <= n,
            found(d) == scanned(*screen, *want, skip_w as int, skip_h as int, n as int),
        decreases total - n,
    {
        proof {
            if want.w == 0 {
                assert(want.w * want.h == 0) by (nonlinear_arith)
                    requires
                        want.w == 0,
                ;
            }
            lemma_place(n as int, want.w as int, want.h as int);
        }
        let x: u32 = (n % want.w as u64) as u32;
        let y: u32 = (n / want.w as u64) as u32;
        if !(x < skip_w && y < skip_h) {
            let got = screen.pixel(x, y);
            let wanted = want.pixel(x, y);
            d.compared = d.compared + 1;
            if !(got == wanted) {
                d.mismatches = d.mismatches + 1;
                if d.first.is_none() {
                    d.first = Some(Mismatch { x, y, got, want: wanted });
                }
            }
        }
        n = n + 1;
    }
    d
}

/// A comparison without mismatches is agreement: every pixel that is not skipped is the one that is
/// wanted.
pub proof fn law_no_mismatch_means_the_same_pixels(
    screen: Raster,
    want: Raster,
    skip_w: int,
    skip_h: int,
    x: int,
    y: int,
)
    requires
        screen.w >= want.w,
        screen.h >= want.h,
        diff(screen, want, skip_w, skip_h).1 == 0,
        0 <= x < want.w,
        0 <= y < want.h,
        !(x < skip_w && y < skip_h),
    ensures
        screen.at(x, y) == want.at(x, y),
{
    let w = want.w as int;
    let n = y * w + x;
    assert(0 <= n < w * want.h) by (nonlinear_arith)
        requires
            n == y * w + x,
            0 <= x < w,
            0 <= y < want.h,
    ;
    vstd::arithmetic::div_mod::lemma_fundamental_div_mod_converse(n, w, y, x);
    lemma_agreed(screen, want, skip_w, skip_h, w * want.h, n);
}

proof fn lemma_agreed(screen: Raster, want: Raster, skip_w: int, skip_h: int, total: int, n: int)
    requires
        scanned(screen, want, skip_w, skip_h, total).1 == 0,
        0 <= n < total,
    ensures
        ({
            let x = n % (want.w as int);
            let y = n / (want.w as int);
            (x < skip_w && y < skip_h) || screen.at(x, y) == want.at(x, y)
        }),
    decreases total,
{
    lemma_counted(screen, want, skip_w, skip_h, total - 1);
    if n < total - 1 {
        lemma_agreed(screen, want, skip_w, skip_h, total - 1, n);
    }
}

proof fn lemma_counted(screen: Raster, want: Raster, skip_w: int, skip_h: int, n: int)
    ensures
        scanned(screen, want, skip_w, skip_h, n).1 >= 0,
    decreases n,
{
    if n > 0 {
        lemma_counted(screen, want, skip_w, skip_h, n - 1);
    }
}

/// The smaller of two numbers.
pub open spec fn least(a: int, b: int) -> int {
    if a < b {
        a
    } else {
        b
    }
}

/// How many of the first `n` pixels of a picture of width `w` are skipped.
pub open spec fn skipped(w: int, skip_w: int, skip_h: int, n: int) -> int {
    let x = n % w;
    let y = n / w;
    least(y, skip_h) * skip_w + if y < skip_h {
        least(x, skip_w)
    } else {
        0
    }
}

proof fn lemma_next_place(n: int, w: int)
    requires
        0 <= n,
        0 < w,
    ensures
        n % w + 1 < w ==> (n + 1) % w == n % w + 1 && (n + 1) / w == n / w,
        n % w + 1 == w ==> (n + 1) % w == 0 && (n + 1) / w == n / w + 1,
        0 <= n % w < w,
        0 <= n / w,
{
    vstd::arithmetic::div_mod::lemma_fundamental_div_mod(n, w);
    vstd::arithmetic::div_mod::lemma_mod_bound(n, w);
    vstd::arithmetic::div_mod::lemma_div_pos_is_pos(n, w);
    let q = n / w;
    let r = n % w;
    assert(w * (q + 1) == w * q + w) by (nonlinear_arith);
    if r + 1 < w {
        assert(n + 1 == q * w + (r + 1)) by (nonlinear_arith)
            requires
                n == w * q + r,
        ;
        vstd::arithmetic::div_mod::lemma_fundamental_div_mod_converse(n + 1, w, q, r + 1);
    } else {
        assert(n + 1 == (q + 1) * w + 0) by (nonlinear_arith)
            requires
                n == w * q + r,
                r + 1 == w,
        ;
        vstd::arithmetic::div_mod::lemma_fundamental_div_mod_converse(n + 1, w, q + 1, 0);
    }
}

proof fn lemma_compared(screen: Raster, want: Raster, skip_w: int, skip_h: int, n: int)
    requires
        want.w > 0,
        0 <= skip_w <= want.w,
        0 <= skip_h,
        0 <= n,
    ensures
        scanned(screen, want, skip_w, skip_h, n).0 == n - skipped(
            want.w as int,
            skip_w,
            skip_h,
            n,
        ),
    decreases n,
{
    let w = want.w as int;
    if n > 0 {
        lemma_compared(screen, want, skip_w, skip_h, n - 1);
        lemma_next_place(n - 1, w);
        let y = (n - 1) / w;
        assert(least(y + 1, skip_h) * skip_w == least(y, skip_h) * skip_w + if y < skip_h {
            skip_w
        } else {
            0
        }) by (nonlinear_arith)
            requires
                0 <= y,
                0 <= skip_h,
        ;
    } else {
        assert(0int / w == 0 && 0int % w == 0) by (nonlinear_arith)
            requires
                w > 0,
        ;
        assert(least(0, skip_h) * skip_w == 0) by (nonlinear_arith)
            requires
                least(0, skip_h) == 0,
        ;
    }
}

/// A comparison leaves nothing out but what it skips: the pixels compared and those skipped are all
/// pixels of the picture.
pub proof fn law_every_pixel_is_compared_or_skipped(
    screen: Raster,
    want: Raster,
    skip_w: int,
    skip_h: int,
)
    requires
        screen.w >= want.w,
        screen.h >= want.h,
        want.w > 0,
        0 <= skip_w <= want.w,
        0 <= skip_h <= want.h,
    ensures
        diff(screen, want, skip_w, skip_h).0 + skip_w * skip_h == want.w * want.h,
{
    let w = want.w as int;
    let h = want.h as int;
    assert(0 <= w * h) by (nonlinear_arith)
        requires
            0 <= w,
            0 <= h,
    ;
    lemma_compared(screen, want, skip_w, skip_h, w * h);
    assert(w * h == h * w + 0) by (nonlinear_arith);
    vstd::arithmetic::div_mod::lemma_fundamental_div_mod_converse(w * h, w, h, 0);
    assert(least(h, skip_h) == skip_h);
    assert(skip_h * skip_w == skip_w * skip_h) by (nonlinear_arith);
}

/// The colour of the cursor's body.
pub open spec fn white() -> Rgb {
    Rgb { r: 0xFF, g: 0xFF, b: 0xFF }
}

/// The place of the `k`th pixel of the cursor, which is twelve wide, from the middle of the screen
/// on.
pub open spec fn cursor_place(screen: Raster, k: int) -> (int, int) {
    (screen.w / 2 + k % 12, screen.h / 2 + k / 12)
}

/// How many of the cursor's first `k` pixels are of the colour of its body.
pub open spec fn cursor_body(screen: Raster, k: int) -> int
    decreases k,
{
    if k <= 0 {
        0
    } else {
        let p = cursor_place(screen, k - 1);
        cursor_body(screen, k - 1) + if p.0 < screen.w && p.1 < screen.h && screen.at(p.0, p.1)
            == white() {
            1int
        } else {
            0
        }
    }
}

/// How many pixels the cursor has.
pub const CURSOR_PIXELS: u32 = 192;

/// How many pixels of the cursor are seen in the middle of the screen.
pub fn cursor_pixels(screen: &Raster) -> (r: u32)
    requires
        screen.wf(),
    ensures
        r == cursor_body(*screen, CURSOR_PIXELS as int),
{
    let mut count: u32 = 0;
    let mut k: u32 = 0;
    while k < CURSOR_PIXELS
        invariant
            k <= CURSOR_PIXELS,
            screen.wf(),
            count <= k,
            count == cursor_body(*screen, k as int),
        decreases CURSOR_PIXELS - k,
    {
        let x: u64 = screen.w as u64 / 2 + k as u64 % 12;
        let y: u64 = screen.h as u64 / 2 + k as u64 / 12;
        if x < screen.w as u64 && y < screen.h as u64 {
            let p = screen.pixel(x as u32, y as u32);
            if p.r == 0xFF && p.g == 0xFF && p.b == 0xFF {
                count = count + 1;
            }
        }
        k = k + 1;
    }
    count
}

/// Why the display gate fails.
#[derive(Debug, Clone, Copy, PartialEq, Eq, Structural)]
pub enum DisplayFault {
    /// The screen is smaller than the scene.
    NoScene,
    /// No cursor is seen in the middle of the screen.
    NoCursor,
    /// The pictures are not one inside the other.
    NotNested,
    /// The scene differs.
    Scene(Diff),
    /// The screen is smaller than the terminal.
    NoTerminal,
    /// The terminal differs.
    Terminal(Diff),
    /// The screen is smaller than the toolkit's window.
    NoToolkit,
    /// The toolkit's window differs.
    Toolkit(Diff),
}

/// What the screen shows: the cursor, and the three windows as far as each is not under another.
#[derive(Debug, Clone, Copy, PartialEq, Eq, Structural)]
pub struct Comparison {
    pub cursor: u32,
    pub scene: Diff,
    pub term: Diff,
    pub ui: Diff,
}

/// The pictures are one inside the other.
pub open spec fn nested(scene: Raster, term: Raster, ui: Raster) -> bool {
    scene.w <= term.w && scene.h <= term.h && term.w <= ui.w && term.h <= ui.h
}

/// What keeps the windows from being compared, if anything.
pub open spec fn opening_fault(screen: Raster, scene: Raster, term: Raster, ui: Raster) -> Option<
    DisplayFault,
> {
    if screen.w < scene.w || screen.h < scene.h {
        Some(DisplayFault::NoScene)
    } else if cursor_body(screen, CURSOR_PIXELS as int) == 0 {
        Some(DisplayFault::NoCursor)
    } else if !nested(scene, term, ui) {
        Some(DisplayFault::NotNested)
    } else {
        None
    }
}

/// What comparing the three windows finds, each without what stands on top of it.
pub open spec fn windows(screen: Raster, scene: Raster, term: Raster, ui: Raster) -> (
    (int, int, Option<Mismatch>),
    (int, int, Option<Mismatch>),
    (int, int, Option<Mismatch>),
) {
    (
        diff(screen, scene, 0, 0),
        diff(screen, term, scene.w as int, scene.h as int),
        diff(screen, ui, term.w as int, term.h as int),
    )
}

/// Compares the screen with the three windows that stand in its corner, the smallest on top.
pub fn compare_display(screen: &Raster, scene: &Raster, term: &Raster, ui: &Raster) -> (r: Result<
    Comparison,
    DisplayFault,
>)
    requires
        screen.wf(),
        scene.wf(),
        term.wf(),
        ui.wf(),
    ensures
        match r {
            Ok(c) => opening_fault(*screen, *scene, *term, *ui) is None && (
                found(c.scene),
                found(c.term),
                found(c.ui),
            ) == windows(*screen, *scene, *term, *ui),
            Err(f) => opening_fault(*screen, *scene, *term, *ui) == Some(f),
        },
        match r {
            Ok(c) => {
                &&& screen.w >= scene.w && screen.h >= scene.h
                &&& c.cursor == cursor_body(*screen, CURSOR_PIXELS as int) && c.cursor > 0
                &&& nested(*scene, *term, *ui)
                &&& found(c.scene) == diff(*screen, *scene, 0, 0)
                &&& found(c.term) == diff(*screen, *term, scene.w as int, scene.h as int)
                &&& found(c.ui) == diff(*screen, *ui, term.w as int, term.h as int)
            },
            Err(DisplayFault::NoScene) => screen.w < scene.w || screen.h < scene.h,
            Err(DisplayFault::NoCursor) => screen.w >= scene.w && screen.h >= scene.h
                && cursor_body(*screen, CURSOR_PIXELS as int) == 0,
            Err(DisplayFault::NotNested) => screen.w >= scene.w && screen.h >= scene.h
                && cursor_body(*screen, CURSOR_PIXELS as int) > 0 && !nested(*scene, *term, *ui),
            Err(_) => false,
        },
{
    if screen.w < scene.w || screen.h < scene.h {
        return Err(DisplayFault::NoScene);
    }
    let cursor: u32 = cursor_pixels(screen);
    if cursor == 0 {
        return Err(DisplayFault::NoCursor);
    }
    if !(scene.w <= term.w && scene.h <= term.h && term.w <= ui.w && term.h <= ui.h) {
        return Err(DisplayFault::NotNested);
    }
    Ok(
        Comparison {
            cursor,
            scene: compare_region(screen, scene, 0, 0),
            term: compare_region(screen, term, scene.w, scene.h),
            ui: compare_region(screen, ui, term.w, term.h),
        },
    )
}

impl Comparison {
    /// Whether nothing that was compared differs, so that the desktops can be tried.
    pub fn agrees(&self) -> (r: bool)
        ensures
            r == (self.scene.mismatches == 0 && self.term.mismatches == 0 && self.ui.mismatches
                == 0),
    {
        self.scene.mismatches == 0 && self.term.mismatches == 0 && self.ui.mismatches == 0
    }

    /// What the comparison comes to, on a screen of this size.
    pub open spec fn fault(self, w: u32, h: u32, term: Raster, ui: Raster) -> Option<DisplayFault> {
        if self.scene.mismatches > 0 {
            Some(DisplayFault::Scene(self.scene))
        } else if w < term.w || h < term.h {
            Some(DisplayFault::NoTerminal)
        } else if self.term.mismatches > 0 {
            Some(DisplayFault::Terminal(self.term))
        } else if w < ui.w || h < ui.h {
            Some(DisplayFault::NoToolkit)
        } else if self.ui.mismatches > 0 {
            Some(DisplayFault::Toolkit(self.ui))
        } else {
            None
        }
    }

    /// What the comparison comes to.
    pub fn verdict(&self, screen: &Raster, term: &Raster, ui: &Raster) -> (r: Result<
        (),
        DisplayFault,
    >)
        ensures
            match self.fault(screen.w, screen.h, *term, *ui) {
                Some(f) => r == Err::<(), DisplayFault>(f),
                None => r is Ok,
            },
    {
        if self.scene.mismatches > 0 {
            Err(DisplayFault::Scene(self.scene))
        } else if screen.w < term.w || screen.h < term.h {
            Err(DisplayFault::NoTerminal)
        } else if self.term.mismatches > 0 {
            Err(DisplayFault::Terminal(self.term))
        } else if screen.w < ui.w || screen.h < ui.h {
            Err(DisplayFault::NoToolkit)
        } else if self.ui.mismatches > 0 {
            Err(DisplayFault::Toolkit(self.ui))
        } else {
            Ok(())
        }
    }
}

/// A picture of one colour.
pub open spec fn is_filled(p: Raster, w: u32, h: u32, c: Rgb) -> bool {
    &&& p.w == w
    &&& p.h == h
    &&& p.rgb@.len() == w * h * 3
    &&& forall|i: int|
        0 <= i < p.rgb@.len() ==> #[trigger] p.rgb@[i] == (if i % 3 == 0 {
            c.r
        } else if i % 3 == 1 {
            c.g
        } else {
            c.b
        })
}

/// A picture of one colour.
pub fn filled(w: u32, h: u32, c: Rgb) -> (r: Raster)
    ensures
        is_filled(r, w, h, c),
{
    assert(0 <= w * h <= 0xFFFF_FFFF * 0xFFFF_FFFF) by (nonlinear_arith)
        requires
            0 <= w <= 0xFFFF_FFFF,
            0 <= h <= 0xFFFF_FFFF,
    ;
    let total: u64 = w as u64 * h as u64;
    let mut rgb: Vec<u8> = Vec::new();
    let mut n: u64 = 0;
    while n < total
        invariant
            n <= total,
            total == w * h,
            rgb@.len() == n * 3,
            forall|i: int|
                0 <= i < rgb@.len() ==> #[trigger] rgb@[i] == (if i % 3 == 0 {
                    c.r
                } else if i % 3 == 1 {
                    c.g
                } else {
                    c.b
                }),
        decreases total - n,
    {
        rgb.push(c.r);
        rgb.push(c.g);
        rgb.push(c.b);
        n = n + 1;
    }
    Raster { w, h, rgb }
}

/// What switching desktops shows to be wrong.
#[derive(Debug, Clone, Copy, PartialEq, Eq, Structural)]
pub enum DesktopFault {
    /// The screen has another width than before.
    Width(u32),
    /// Something is still drawn on the empty desktop.
    StillDrawn(Diff),
    /// The scene came back changed.
    Changed(Diff),
}

/// Checks the screen after a switch to an empty desktop: where the scene stood, nothing but the
/// background is seen.
pub fn check_emptied(screen: &Raster, first_w: u32, w: u32, h: u32, background: Rgb) -> (r: Result<
    (),
    DesktopFault,
>)
    requires
        screen.wf(),
        w <= screen.w || first_w != screen.w,
        h <= screen.h,
    ensures
        match r {
            Err(DesktopFault::Width(n)) => n == screen.w && screen.w != first_w,
            Err(DesktopFault::StillDrawn(d)) => screen.w == first_w && d.mismatches > 0 && exists|
                b: Raster,
            | #[trigger]
                is_filled(b, w, h, background) && found(d) == diff(*screen, b, 0, 0),
            Err(DesktopFault::Changed(_)) => false,
            Ok(_) => screen.w == first_w && exists|b: Raster| #[trigger]
                is_filled(b, w, h, background) && diff(*screen, b, 0, 0).1 == 0,
        },
{
    if screen.w != first_w {
        return Err(DesktopFault::Width(screen.w));
    }
    let b = filled(w, h, background);
    let d = compare_region(screen, &b, 0, 0);
    if d.mismatches > 0 {
        Err(DesktopFault::StillDrawn(d))
    } else {
        Ok(())
    }
}

/// Checks the screen after the switch back: the scene is there again, unchanged.
pub fn check_restored(screen: &Raster, scene: &Raster) -> (r: Result<(), DesktopFault>)
    requires
        screen.wf(),
        scene.wf(),
        scene.w <= screen.w,
        scene.h <= screen.h,
    ensures
        match r {
            Err(DesktopFault::Changed(d)) => d.mismatches > 0 && found(d) == diff(
                *screen,
                *scene,
                0,
                0,
            ),
            Err(_) => false,
            Ok(_) => diff(*screen, *scene, 0, 0).1 == 0,
        },
{
    let d = compare_region(screen, scene, 0, 0);
    if d.mismatches > 0 {
        Err(DesktopFault::Changed(d))
    } else {
        Ok(())
    }
}

/// How many captures are waited for the screen to stop changing.
pub const SETTLE_TRIES: usize = 12;

/// A wait for the screen to stop changing.
pub struct Settle {
    last: Option<Vec<u8>>,
    tries: usize,
}

/// What follows a capture.
#[derive(Debug, Clone, Copy, PartialEq, Eq, Structural)]
pub enum SettleStep {
    /// It is the one before it: the screen has stopped changing.
    Settled,
    /// It is not: wait, and capture again.
    Again,
    /// It is not, and was the last.
    GaveUp,
}

/// What follows a capture, by the one before it and how many there were.
pub open spec fn settle_step(last: Option<Seq<u8>>, tries: nat, bytes: Seq<u8>) -> SettleStep {
    if last == Some(bytes) {
        SettleStep::Settled
    } else if tries + 1 < SETTLE_TRIES {
        SettleStep::Again
    } else {
        SettleStep::GaveUp
    }
}

impl Settle {
    /// The capture before.
    pub closed spec fn last(&self) -> Option<Seq<u8>> {
        match self.last {
            Some(v) => Some(v@),
            None => None,
        }
    }

    /// How many captures there were.
    pub closed spec fn tries(&self) -> nat {
        self.tries as nat
    }

    /// No capture yet.
    pub fn new() -> (r: Self)
        ensures
            r.last() is None,
            r.tries() == 0,
    {
        Settle { last: None, tries: 0 }
    }

    /// Takes a capture.
    pub fn take(&mut self, bytes: Vec<u8>) -> (r: SettleStep)
        requires
            old(self).tries() < SETTLE_TRIES,
        ensures
            r == settle_step(old(self).last(), old(self).tries(), bytes@),
            r == (if old(self).last() == Some(bytes@) {
                SettleStep::Settled
            } else if old(self).tries() + 1 < SETTLE_TRIES {
                SettleStep::Again
            } else {
                SettleStep::GaveUp
            }),
            final(self).last() == Some(bytes@),
            final(self).tries() == old(self).tries() + 1,
    {
        let same = match &self.last {
            Some(v) => wire::same_bytes(v.as_slice(), bytes.as_slice()),
            None => false,
        };
        self.last = Some(bytes);
        self.tries = self.tries + 1;
        if same {
            SettleStep::Settled
        } else if self.tries < SETTLE_TRIES {
            SettleStep::Again
        } else {
            SettleStep::GaveUp
        }
    }
}

/// The acts that lead to the first capture: the fonts are loaded in order, and the windows placed.
#[verifier::opaque]
pub open spec fn present_acts(ui: Seq<char>, mono: Seq<char>) -> Seq<ActView> {
    seq![
        ActView::Expect("ui-testclient: font loaded "@ + ui),
        ActView::Expect("ui-testclient: font loaded "@ + mono),
        ActView::Say("  ok: the guest loaded the desktop's face and the terminal's, in that order"@),
        ActView::Expect("compositor: no manager answer for window"@),
        ActView::Expect("ui-testclient: manager saw created, focus, geometry and destroyed"@),
        ActView::Expect("ui-testclient: the first configure carried the manager's placement"@),
        ActView::Expect("ui-testclient: a popup was placed by its creator, without the manager"@),
        ActView::Expect("ui-testclient: a dialog was held for the manager and placed by it"@),
        ActView::Expect("ui-testclient: desktop and minimized requests round-tripped through info"@),
        ActView::Expect("ui-testclient: reference windows placed via /dev/draw/manage"@),
        ActView::Expect("ui-testclient: a second /dev/draw/manage was refused"@),
        ActView::Expect("ui-testclient: scene presented via /dev/draw"@),
    ]
}

pub fn present_script(ui: &str, mono: &str) -> (r: Script)
    ensures
        r@ == present_acts(ui@, mono@),
{
    reveal(present_acts);
    let mut o = Script::new();
    let m1 = String::from_str("ui-testclient: font loaded ");
    let m1 = script::then_text(m1, ui);
    o.expect(m1.as_str());
    let m2 = String::from_str("ui-testclient: font loaded ");
    let m2 = script::then_text(m2, mono);
    o.expect(m2.as_str());
    o.say("  ok: the guest loaded the desktop's face and the terminal's, in that order");
    o.expect("compositor: no manager answer for window");
    o.expect("ui-testclient: manager saw created, focus, geometry and destroyed");
    o.expect("ui-testclient: the first configure carried the manager's placement");
    o.expect("ui-testclient: a popup was placed by its creator, without the manager");
    o.expect("ui-testclient: a dialog was held for the manager and placed by it");
    o.expect("ui-testclient: desktop and minimized requests round-tripped through info");
    o.expect("ui-testclient: reference windows placed via /dev/draw/manage");
    o.expect("ui-testclient: a second /dev/draw/manage was refused");
    o.expect("ui-testclient: scene presented via /dev/draw");
    o
}

/// The acts that switch to the empty desktop.
#[verifier::opaque]
pub open spec fn away_acts() -> Seq<ActView> {
    seq![
        ActView::Expect("ui-testclient: hotkey registered, waiting"@),
        ActView::Chord(false, "f1"@),
        ActView::Expect("ui-testclient: hotkey fired -> desktop 2"@),
    ]
}

pub fn away_script() -> (r: Script)
    ensures
        r@ == away_acts(),
{
    reveal(away_acts);
    let mut o = Script::new();
    o.expect("ui-testclient: hotkey registered, waiting");
    o.chord(false, "f1");
    o.expect("ui-testclient: hotkey fired -> desktop 2");
    o
}

/// The acts that switch back.
#[verifier::opaque]
pub open spec fn back_acts() -> Seq<ActView> {
    seq![
        ActView::Chord(false, "f1"@),
        ActView::Expect("ui-testclient: hotkey fired -> desktop 1"@),
    ]
}

pub fn back_script() -> (r: Script)
    ensures
        r@ == back_acts(),
{
    reveal(back_acts);
    let mut o = Script::new();
    o.chord(false, "f1");
    o.expect("ui-testclient: hotkey fired -> desktop 1");
    o
}

/// The first mismatch is one: a pixel that is compared and differs, as both pictures have it, and every
/// pixel before it, row by row, is skipped or the same. There is none exactly where nothing differs.
pub proof fn law_the_first_mismatch_is_the_first(
    screen: Raster,
    want: Raster,
    skip_w: int,
    skip_h: int,
    n: int,
)
    requires
        0 <= n <= want.w * want.h,
        want.w > 0,
    ensures
        match scanned(screen, want, skip_w, skip_h, n).2 {
            Some(m) => {
                let k = m.y * want.w + m.x;
                &&& m.x < want.w && m.y < want.h && 0 <= k < n
                &&& !(m.x < skip_w && m.y < skip_h)
                &&& m.got == screen.at(m.x as int, m.y as int) && m.want == want.at(
                    m.x as int,
                    m.y as int,
                ) && m.got != m.want
                &&& scanned(screen, want, skip_w, skip_h, k).1 == 0
                &&& scanned(screen, want, skip_w, skip_h, n).1 > 0
            },
            None => scanned(screen, want, skip_w, skip_h, n).1 == 0,
        },
    decreases n,
{
    if n > 0 {
        law_the_first_mismatch_is_the_first(screen, want, skip_w, skip_h, n - 1);
        lemma_counted(screen, want, skip_w, skip_h, n - 1);
        lemma_place(n - 1, want.w as int, want.h as int);
        let w = want.w as int;
        let x = (n - 1) % w;
        let y = (n - 1) / w;
        assert(y * w + x == n - 1) by (nonlinear_arith)
            requires
                x == (n - 1) % w,
                y == (n - 1) / w,
                w > 0,
        ;
    }
}

/// Pictures that are the same wherever they are compared have no mismatch, and a screen that is too
/// small is compared nowhere.
pub proof fn law_the_same_pixels_are_no_mismatch(
    screen: Raster,
    want: Raster,
    skip_w: int,
    skip_h: int,
    n: int,
)
    requires
        0 <= n <= want.w * want.h,
        want.w > 0,
        forall|x: int, y: int|
            0 <= x < want.w && 0 <= y < want.h && !(x < skip_w && y < skip_h) ==> #[trigger] screen.at(
                x,
                y,
            ) == want.at(x, y),
    ensures
        scanned(screen, want, skip_w, skip_h, n).1 == 0,
        screen.w < want.w || screen.h < want.h ==> diff(screen, want, skip_w, skip_h).0 == 0,
    decreases n,
{
    if n > 0 {
        law_the_same_pixels_are_no_mismatch(screen, want, skip_w, skip_h, n - 1);
        lemma_place(n - 1, want.w as int, want.h as int);
    }
}

/// The display passes exactly where the screen has room for all three windows and none of them
/// differs.
pub proof fn law_the_display_passes_where_all_agree(c: Comparison, w: u32, h: u32, term: Raster, ui: Raster)
    ensures
        c.fault(w, h, term, ui) is None <==> {
            &&& c.scene.mismatches == 0 && c.term.mismatches == 0 && c.ui.mismatches == 0
            &&& w >= term.w && h >= term.h
            &&& w >= ui.w && h >= ui.h
        },
{
}

/// A cursor is seen exactly where some pixel of its place, twelve wide from the middle of the screen
/// on, lies on the screen and is white.
pub proof fn law_a_cursor_is_seen_by_its_white(screen: Raster, k: int)
    requires
        0 <= k,
    ensures
        0 <= cursor_body(screen, k) <= k,
        cursor_body(screen, k) > 0 <==> exists|i: int|
            0 <= i < k && #[trigger] shows_white(
                screen,
                screen.w as int / 2 + i % 12,
                screen.h as int / 2 + i / 12,
            ),
    decreases k,
{
    if k > 0 {
        law_a_cursor_is_seen_by_its_white(screen, k - 1);
        let j = k - 1;
        let x = screen.w as int / 2 + j % 12;
        let y = screen.h as int / 2 + j / 12;
        assert(shows_white(screen, x, y) == (x < screen.w && y < screen.h && screen.at(x, y) == white()));
        if cursor_body(screen, j) > 0 {
            let i = choose|i: int|
                0 <= i < j && #[trigger] shows_white(
                    screen,
                    screen.w as int / 2 + i % 12,
                    screen.h as int / 2 + i / 12,
                );
            assert(shows_white(screen, screen.w as int / 2 + i % 12, screen.h as int / 2 + i / 12));
        }
    }
}

/// The place lies on the screen, and the screen is white there.
pub open spec fn shows_white(screen: Raster, x: int, y: int) -> bool {
    &&& x < screen.w
    &&& y < screen.h
    &&& screen.at(x, y) == Rgb { r: 255, g: 255, b: 255 }
}

/// The screen has settled exactly where two captures that follow each other are the same, at whichever
/// of them; one that keeps changing is captured twelve times.
pub proof fn law_a_screen_settles_when_it_repeats(last: Option<Seq<u8>>, tries: nat, bytes: Seq<u8>)
    ensures
        settle_step(last, tries, bytes) is Settled <==> last == Some(bytes),
        last != Some(bytes) && tries < 11 ==> settle_step(last, tries, bytes) is Again,
        last != Some(bytes) && tries >= 11 ==> settle_step(last, tries, bytes) is GaveUp,
{
}

/// Where none of the windows differs, every pixel of the largest is the one of the topmost window that
/// covers it.
pub proof fn law_every_pixel_is_the_topmost_windows(
    screen: Raster,
    scene: Raster,
    term: Raster,
    ui: Raster,
    x: int,
    y: int,
)
    requires
        screen.w >= ui.w,
        screen.h >= ui.h,
        scene.w <= term.w <= ui.w,
        scene.h <= term.h <= ui.h,
        windows(screen, scene, term, ui).0.1 == 0,
        windows(screen, scene, term, ui).1.1 == 0,
        windows(screen, scene, term, ui).2.1 == 0,
        0 <= x < ui.w,
        0 <= y < ui.h,
    ensures
        screen.at(x, y) == if x < scene.w && y < scene.h {
            scene.at(x, y)
        } else if x < term.w && y < term.h {
            term.at(x, y)
        } else {
            ui.at(x, y)
        },
{
    if x < scene.w && y < scene.h {
        law_no_mismatch_means_the_same_pixels(screen, scene, 0, 0, x, y);
    } else if x < term.w && y < term.h {
        law_no_mismatch_means_the_same_pixels(
            screen,
            term,
            scene.w as int,
            scene.h as int,
            x,
            y,
        );
    } else {
        law_no_mismatch_means_the_same_pixels(screen, ui, term.w as int, term.h as int, x, y);
    }
}

/// The windows are compared exactly where the scene fits on the screen, a cursor is seen, and the
/// windows are one inside the other.
pub proof fn law_windows_are_compared_where_they_can_be(
    screen: Raster,
    scene: Raster,
    term: Raster,
    ui: Raster,
)
    ensures
        opening_fault(screen, scene, term, ui) is None <==> {
            &&& screen.w >= scene.w && screen.h >= scene.h
            &&& cursor_body(screen, 192) > 0
            &&& scene.w <= term.w <= ui.w && scene.h <= term.h <= ui.h
        },
{
    law_a_cursor_is_seen_by_its_white(screen, 192);
}

/// A screen that was emptied shows the background at every place where the scene stood.
pub proof fn law_an_emptied_screen_is_background(screen: Raster, b: Raster, w: u32, h: u32, c: Rgb, x: int, y: int)
    requires
        is_filled(b, w, h, c),
        screen.w >= w,
        screen.h >= h,
        diff(screen, b, 0, 0).1 == 0,
        0 <= x < w,
        0 <= y < h,
    ensures
        screen.at(x, y) == c,
{
    law_no_mismatch_means_the_same_pixels(screen, b, 0, 0, x, y);
    lemma_inside(w as int, h as int, x, y);
    let i = (y * w + x) * 3;
    assert(i % 3 == 0 && (i + 1) % 3 == 1 && (i + 2) % 3 == 2);
    assert(b.rgb@[i] == c.r && b.rgb@[i + 1] == c.g && b.rgb@[i + 2] == c.b);
}

} // verus!
