//! What the compositor and the shell say about windows: a popup's, a dialog's and a
//! window's place and size, the work area, and the task bar's groups.

use vstd::prelude::*;

use crate::number;
use crate::text;

verus! {

/// A size as a distance between places, which are words with a sign: one that is too large for that
/// comes round to the negative numbers.
pub open spec fn span(n: u32) -> int {
    if n < 0x8000_0000 {
        n as int
    } else {
        n - 0x1_0000_0000
    }
}

/// A size as a distance between places.
pub fn span_of(n: u32) -> (r: i64)
    ensures
        r == span(n),
        -0x8000_0000 <= r < 0x8000_0000,
{
    if n < 0x8000_0000 {
        n as i64
    } else {
        n as i64 - 0x1_0000_0000
    }
}

/// A fraction of a number, rounded towards zero.
pub open spec fn fraction(n: int, d: int) -> int {
    if n < 0 {
        -((-n) / d)
    } else {
        n / d
    }
}

/// A fraction of a number.
pub fn fraction_of(n: i64, d: i64) -> (r: i64)
    requires
        n > i64::MIN,
        d > 0,
    ensures
        r == fraction(n as int, d as int),
        n < 0 ==> n <= r <= 0,
        n >= 0 ==> 0 <= r <= n,
{
    proof {
        let a = if n < 0 { -(n as int) } else { n as int };
        assert(0 <= a / (d as int) <= a) by (nonlinear_arith)
            requires
                a >= 0,
                d > 0,
        ;
    }
    if n < 0 {
        -((-n) / d)
    } else {
        n / d
    }
}

/// `x,y`.
pub open spec fn point(s: Seq<char>) -> Option<(i32, i32)> {
    match text::split_once(s, ","@) {
        Some((a, b)) => match (number::i32_of(a), number::i32_of(b)) {
            (Some(x), Some(y)) => Some((x, y)),
            _ => None,
        },
        None => None,
    }
}

/// `wxh`.
pub open spec fn extent(s: Seq<char>) -> Option<(u32, u32)> {
    match text::split_once(s, "x"@) {
        Some((a, b)) => match (number::u32_of(a), number::u32_of(b)) {
            (Some(w), Some(h)) => Some((w, h)),
            _ => None,
        },
        None => None,
    }
}

/// `x,y wxh`, with white space around the size.
pub open spec fn rectangle(s: Seq<char>) -> Option<(i32, i32, u32, u32)> {
    match text::split_once(s, " "@) {
        Some((origin, size)) => match (point(origin), extent(text::trim(size))) {
            (Some((x, y)), Some((w, h))) => Some((x, y, w, h)),
            _ => None,
        },
        None => None,
    }
}

/// `id at x,y wxh`, with white space around it.
pub open spec fn menu_popup(s: Seq<char>) -> Option<(u32, i32, i32, u32, u32)> {
    match text::split_once(text::trim(s), " at "@) {
        Some((id, rest)) => match (number::u32_of(id), rectangle(rest)) {
            (Some(id), Some((x, y, w, h))) => Some((id, x, y, w, h)),
            _ => None,
        },
        None => None,
    }
}

/// `id of window parent at x,y wxh`, with white space around it.
pub open spec fn dialog_placement(s: Seq<char>) -> Option<(u32, u32, i32, i32, u32, u32)> {
    match text::split_once(text::trim(s), " of window "@) {
        Some((id, rest)) => match text::split_once(rest, " at "@) {
            Some((parent, rest)) => match (number::u32_of(id), number::u32_of(parent), rectangle(rest)) {
                (Some(id), Some(parent), Some((x, y, w, h))) => Some((id, parent, x, y, w, h)),
                _ => None,
            },
            None => None,
        },
        None => None,
    }
}

/// A group of the task bar's listing is the one of window `id`.
pub open spec fn group_is(group: Seq<char>, id: nat) -> bool {
    match text::split_once(group, ":"@) {
        Some((n, _)) => text::trim(n) == number::numeral(id, 10),
        None => false,
    }
}

/// Words `k` and `k + 1` as a place and a size.
pub open spec fn place_and_size(w: Seq<Seq<char>>, k: int) -> Option<(i32, i32, u32, u32)> {
    if w.len() > k + 1 {
        match (point(w[k]), extent(w[k + 1])) {
            (Some((x, y)), Some((a, b))) => Some((x, y, a, b)),
            _ => None,
        }
    } else {
        None
    }
}

/// The second word as a size, the first being an origin that is not read.
pub open spec fn geometry(s: Seq<char>) -> Option<(u32, u32)> {
    let w = text::words(s);
    if w.len() > 1 {
        extent(w[1])
    } else {
        None
    }
}

/// `x,y wxh of WxH`, as words.
pub open spec fn work_area(s: Seq<char>) -> Option<(i32, i32, u32, u32, u32, u32)> {
    let w = text::words(s);
    if w.len() > 3 && w[2] == "of"@ {
        match (place_and_size(w, 0), extent(w[3])) {
            (Some((x, y, a, b)), Some((sw, sh))) => Some((x, y, a, b, sw, sh)),
            _ => None,
        }
    } else {
        None
    }
}

/// `id at x,y`, as words.
pub open spec fn placement(s: Seq<char>) -> Option<(u32, i32, i32)> {
    let w = text::words(s);
    if w.len() > 2 && w[1] == "at"@ {
        match (number::u32_of(w[0]), point(w[2])) {
            (Some(id), Some((x, y))) => Some((id, x, y)),
            _ => None,
        }
    } else {
        None
    }
}

/// `id verb x,y wxh`, as words.
pub open spec fn window_line(s: Seq<char>, verb: Seq<char>) -> Option<(u32, i32, i32, u32, u32)> {
    let w = text::words(s);
    if w.len() > 3 && w[1] == verb {
        match (number::u32_of(w[0]), place_and_size(w, 2)) {
            (Some(id), Some((x, y, a, b))) => Some((id, x, y, a, b)),
            _ => None,
        }
    } else {
        None
    }
}

fn read_point(s: &[char]) -> (r: Option<(i32, i32)>)
    ensures
        r == point(s@),
{
    let (a, b) = text::cut(s, ",")?;
    let x: i32 = number::parse_i32(a)?;
    let y: i32 = number::parse_i32(b)?;
    Some((x, y))
}

fn read_extent(s: &[char]) -> (r: Option<(u32, u32)>)
    ensures
        r == extent(s@),
{
    let (a, b) = text::cut(s, "x")?;
    let w: u32 = number::parse_u32(a)?;
    let h: u32 = number::parse_u32(b)?;
    Some((w, h))
}

fn read_rectangle(s: &[char]) -> (r: Option<(i32, i32, u32, u32)>)
    ensures
        r == rectangle(s@),
{
    let (origin, size) = text::cut(s, " ")?;
    let (x, y) = read_point(origin)?;
    let (w, h) = read_extent(text::trimmed(size))?;
    Some((x, y, w, h))
}

/// Where a menu's popup was put: its id, origin and size.
pub fn parse_menu_popup(tail: &str) -> (r: Option<(u32, i32, i32, u32, u32)>)
    ensures
        r == menu_popup(tail@),
{
    let s = text::chars_of(tail);
    let (id, rest) = text::cut(text::trimmed(s.as_slice()), " at ")?;
    let id: u32 = number::parse_u32(id)?;
    let (x, y, w, h) = read_rectangle(rest)?;
    Some((id, x, y, w, h))
}

/// Where a dialog was put: its id, its parent's id, its origin and size.
pub fn parse_dialog_placement(tail: &str) -> (r: Option<(u32, u32, i32, i32, u32, u32)>)
    ensures
        r == dialog_placement(tail@),
{
    let s = text::chars_of(tail);
    let (id, rest) = text::cut(text::trimmed(s.as_slice()), " of window ")?;
    let (parent, rest) = text::cut(rest, " at ")?;
    let id: u32 = number::parse_u32(id)?;
    let parent: u32 = number::parse_u32(parent)?;
    let (x, y, w, h) = read_rectangle(rest)?;
    Some((id, parent, x, y, w, h))
}

/// The position of the first group of window `id` from the `j`th on, not counting what stands
/// before the groups.
pub open spec fn slot_from(groups: Seq<Seq<char>>, id: u32, j: int) -> Option<int>
    decreases groups.len() - j,
{
    if j >= groups.len() {
        None
    } else if group_is(groups[j], id as nat) {
        Some(j - 1)
    } else {
        slot_from(groups, id, j + 1)
    }
}

/// The position of window `id` in the task bar.
pub open spec fn slot(list: Seq<char>, id: u32) -> Option<int> {
    slot_from(text::split(list, "["@), id, 1)
}

/// The position of window `id` among the task bar's groups, each written `[id:title]`.
pub fn taskbar_slot(list: &str, id: u32) -> (r: Option<usize>)
    ensures
        ({
            let groups = text::split(list@, "["@);
            match r {
                Some(k) => k + 1 < groups.len() && group_is(groups[k + 1], id as nat) && forall|
                    j: int,
                |
                    0 < j <= k ==> !group_is(#[trigger] groups[j], id as nat),
                None => forall|j: int|
                    0 < j < groups.len() ==> !group_is(#[trigger] groups[j], id as nat),
            }
        }),
        match r {
            Some(k) => slot(list@, id) == Some(k as int),
            None => slot(list@, id) is None,
        },
{
    let s = text::chars_of(list);
    proof {
        reveal_strlit("[");
    }
    let groups = text::pieces(s.as_slice(), "[");
    let want = number::write_number(id as u64, 10);
    let mut k: usize = 1;
    while k < groups.len()
        invariant
            1 <= k <= groups.len(),
            want@ == number::numeral(id as nat, 10),
            text::views(groups@) == text::split(list@, "["@),
            slot(list@, id) == slot_from(text::split(list@, "["@), id, k as int),
            forall|j: int| 0 < j < k ==> !group_is(#[trigger] text::split(list@, "["@)[j], id as nat),
        decreases groups.len() - k,
    {
        assert(text::views(groups@)[k as int] == groups[k as int]@);
        match text::cut(groups[k], ":") {
            Some((n, _)) => {
                if text::same(text::trimmed(n), want.as_slice()) {
                    return Some(k - 1);
                }
            },
            None => {},
        }
        k = k + 1;
    }
    None
}

/// The size in a window line whose first word is the origin.
pub fn parse_geometry(rest: &str) -> (r: Option<(u32, u32)>)
    ensures
        r == geometry(rest@),
{
    let s = text::chars_of(rest);
    let w = text::words_of(s.as_slice());
    if w.len() > 1 {
        assert(text::views(w@)[1] == w[1]@);
        read_extent(w[1])
    } else {
        None
    }
}

fn read_place_and_size(w: &Vec<&[char]>, k: usize) -> (r: Option<(i32, i32, u32, u32)>)
    requires
        k < 100,
    ensures
        r == place_and_size(text::views(w@), k as int),
{
    if w.len() > k + 1 {
        assert(text::views(w@)[k as int] == w[k as int]@);
        assert(text::views(w@)[k + 1] == w[k + 1]@);
        let (x, y) = read_point(w[k])?;
        let (a, b) = read_extent(w[k + 1])?;
        Some((x, y, a, b))
    } else {
        None
    }
}

/// The work area and the screen it is part of.
pub fn parse_work_area(rest: &str) -> (r: Option<(i32, i32, u32, u32, u32, u32)>)
    ensures
        r == work_area(rest@),
{
    let s = text::chars_of(rest);
    let w = text::words_of(s.as_slice());
    if w.len() > 3 {
        assert(text::views(w@)[2] == w[2]@);
        assert(text::views(w@)[3] == w[3]@);
        if !text::equals(w[2], "of") {
            return None;
        }
        let (x, y, a, b) = read_place_and_size(&w, 0)?;
        let (sw, sh) = read_extent(w[3])?;
        Some((x, y, a, b, sw, sh))
    } else {
        None
    }
}

/// The id and origin of a placed window.
pub fn parse_placement(rest: &str) -> (r: Option<(u32, i32, i32)>)
    ensures
        r == placement(rest@),
{
    let s = text::chars_of(rest);
    let w = text::words_of(s.as_slice());
    if w.len() > 2 {
        assert(text::views(w@)[0] == w[0]@);
        assert(text::views(w@)[1] == w[1]@);
        assert(text::views(w@)[2] == w[2]@);
        if !text::equals(w[1], "at") {
            return None;
        }
        let id: u32 = number::parse_u32(w[0])?;
        let (x, y) = read_point(w[2])?;
        Some((id, x, y))
    } else {
        None
    }
}

fn read_window_line(rest: &str, verb: &str) -> (r: Option<(u32, i32, i32, u32, u32)>)
    ensures
        r == window_line(rest@, verb@),
{
    let s = text::chars_of(rest);
    let w = text::words_of(s.as_slice());
    if w.len() > 3 {
        assert(text::views(w@)[0] == w[0]@);
        assert(text::views(w@)[1] == w[1]@);
        if !text::equals(w[1], verb) {
            return None;
        }
        let id: u32 = number::parse_u32(w[0])?;
        let (x, y, a, b) = read_place_and_size(&w, 2)?;
        Some((id, x, y, a, b))
    } else {
        None
    }
}

/// The id, origin and size in a popup's line.
pub fn parse_popup_line(rest: &str) -> (r: Option<(u32, i32, i32, u32, u32)>)
    ensures
        r == window_line(rest@, "at"@),
{
    read_window_line(rest, "at")
}

/// The id, origin and size in a window's geometry line.
pub fn parse_geometry_line(rest: &str) -> (r: Option<(u32, i32, i32, u32, u32)>)
    ensures
        r == window_line(rest@, "geometry"@),
{
    read_window_line(rest, "geometry")
}

/// How a place and a size are written.
pub open spec fn written_rectangle(x: int, y: int, w: nat, h: nat) -> Seq<char> {
    number::written(x) + ","@ + number::written(y) + " "@ + number::numeral(w, 10) + "x"@ + number::numeral(h, 10)
}

/// No character of `s` is `c`.
spec fn lacks(s: Seq<char>, c: char) -> bool {
    forall|i: int| 0 <= i < s.len() ==> s[i] != c
}

/// A text is cut at the separator that follows a part in which the separator cannot begin.
proof fn lemma_cut(a: Seq<char>, pat: Seq<char>, b: Seq<char>)
    requires
        pat.len() > 0,
        lacks(a, pat[0]),
    ensures
        text::split_once(a + pat + b, pat) == Some((a, b)),
{
    let s = a + pat + b;
    assert(s.subrange(a.len() as int, (a.len() + pat.len()) as int) =~= pat);
    assert(text::occurs_at(s, pat, a.len() as int));
    text::lemma_find(s, pat);
    let i = text::find(s, pat)->0;
    assert(text::find(s, pat) is Some);
    assert(i >= a.len()) by {
        if i < a.len() {
            assert(s.subrange(i, i + pat.len())[0] == s[i]);
            assert(s[i] == a[i]);
        }
    }
    assert(i == a.len());
    assert(s.take(i) =~= a);
    assert(s.skip(i + pat.len()) =~= b);
}

/// What a number is written with: digits, and a sign in front at most.
proof fn lemma_written(n: int)
    requires
        i32::MIN <= n <= i32::MAX,
    ensures
        number::i32_of(number::written(n)) == Some(n as i32),
        number::written(n).len() > 0,
        forall|i: int| 0 <= i < number::written(n).len() ==> #[trigger] number::written(n)[i] == '-' || number::digit_value(number::written(n)[i]) < 10,
{
    let m = if n < 0 { -n } else { n };
    number::law_numeral_reads_back(m as nat, 10);
    let d = number::numeral(m as nat, 10);
    assert(number::digit_value(d[0]) < 10);
    if n < 0 {
        assert(number::written(n).skip(1) =~= d);
        assert forall|i: int| 0 <= i < number::written(n).len() implies #[trigger] number::written(n)[i] == '-' || number::digit_value(number::written(n)[i]) < 10 by {
            if i > 0 {
                assert(number::written(n)[i] == d[i - 1]);
                assert(number::digit_value(d[i - 1]) < 10);
            }
        }
    } else {
        assert forall|i: int| 0 <= i < number::written(n).len() implies #[trigger] number::written(n)[i] == '-' || number::digit_value(number::written(n)[i]) < 10 by {
            assert(number::digit_value(d[i]) < 10);
        }
    }
}

/// An unsigned number reads back, and is written with digits alone.
proof fn lemma_numeral(n: nat)
    requires
        n <= u32::MAX,
    ensures
        number::u32_of(number::numeral(n, 10)) == Some(n as u32),
        number::numeral(n, 10).len() > 0,
        forall|i: int| 0 <= i < number::numeral(n, 10).len() ==> number::digit_value(#[trigger] number::numeral(n, 10)[i]) < 10,
{
    number::law_numeral_reads_back(n, 10);
    assert(number::digit_value(number::numeral(n, 10)[0]) < 10);
}

/// A text that neither begins nor ends with white space is its own trimming.
proof fn lemma_trim_plain(s: Seq<char>)
    requires
        s.len() > 0,
        !text::is_space(s[0]),
        !text::is_space(s.last()),
    ensures
        text::trim(s) == s,
{
}

/// A written place and size read back.
proof fn lemma_rectangle(x: int, y: int, w: nat, h: nat)
    requires
        i32::MIN <= x <= i32::MAX,
        i32::MIN <= y <= i32::MAX,
        w <= u32::MAX,
        h <= u32::MAX,
    ensures
        rectangle(written_rectangle(x, y, w, h)) == Some((x as i32, y as i32, w as u32, h as u32)),
{
    reveal_strlit(",");
    reveal_strlit(" ");
    reveal_strlit("x");
    lemma_written(x);
    lemma_written(y);
    lemma_numeral(w);
    lemma_numeral(h);
    let origin = number::written(x) + ","@ + number::written(y);
    let size = number::numeral(w, 10) + "x"@ + number::numeral(h, 10);
    assert forall|i: int| 0 <= i < origin.len() implies origin[i] != ' ' by {
        if i < number::written(x).len() {
            assert(origin[i] == number::written(x)[i]);
        } else if i > number::written(x).len() {
            assert(origin[i] == number::written(y)[i - number::written(x).len() - 1]);
        }
    }
    lemma_cut(origin, " "@, size);
    assert(written_rectangle(x, y, w, h) =~= origin + " "@ + size);
    assert forall|i: int| 0 <= i < number::written(x).len() implies number::written(x)[i] != ',' by {}
    lemma_cut(number::written(x), ","@, number::written(y));
    assert forall|i: int| 0 <= i < number::numeral(w, 10).len() implies number::numeral(w, 10)[i] != 'x' by {}
    lemma_cut(number::numeral(w, 10), "x"@, number::numeral(h, 10));
    assert(size[0] == number::numeral(w, 10)[0]);
    assert(size.last() == number::numeral(h, 10)[number::numeral(h, 10).len() - 1]);
    lemma_trim_plain(size);
}

/// A popup's placement, written out, reads back as its five numbers.
#[verifier::spinoff_prover]
#[verifier::rlimit(60)]
pub proof fn law_menu_popup_reads_back(id: u32, x: i32, y: i32, w: u32, h: u32)
    ensures
        menu_popup(
            number::numeral(id as nat, 10) + " at "@ + written_rectangle(x as int, y as int, w as nat, h as nat),
        ) == Some((id, x, y, w, h)),
{
    reveal_strlit(" at ");
    let tail = written_rectangle(x as int, y as int, w as nat, h as nat);
    let n = number::numeral(id as nat, 10);
    let line = n + " at "@ + tail;
    lemma_numeral(id as nat);
    lemma_numeral(h as nat);
    lemma_rectangle(x as int, y as int, w as nat, h as nat);
    assert forall|i: int| 0 <= i < n.len() implies n[i] != ' ' by {}
    lemma_cut(n, " at "@, tail);
    assert(line[0] == n[0]);
    assert(line.last() == number::numeral(h as nat, 10)[number::numeral(h as nat, 10).len() - 1]);
    lemma_trim_plain(line);
}

/// A dialog's placement, written out, reads back as its six numbers.
#[verifier::spinoff_prover]
#[verifier::rlimit(60)]
pub proof fn law_dialog_placement_reads_back(id: u32, parent: u32, x: i32, y: i32, w: u32, h: u32)
    ensures
        dialog_placement(
            number::numeral(id as nat, 10) + " of window "@ + number::numeral(parent as nat, 10) + " at "@
                + written_rectangle(x as int, y as int, w as nat, h as nat),
        ) == Some((id, parent, x, y, w, h)),
{
    reveal_strlit(" at ");
    reveal_strlit(" of window ");
    let tail = written_rectangle(x as int, y as int, w as nat, h as nat);
    let n = number::numeral(id as nat, 10);
    let m = number::numeral(parent as nat, 10);
    let rest = m + " at "@ + tail;
    let line = n + " of window "@ + m + " at "@ + tail;
    lemma_numeral(id as nat);
    lemma_numeral(parent as nat);
    lemma_numeral(h as nat);
    lemma_rectangle(x as int, y as int, w as nat, h as nat);
    assert forall|i: int| 0 <= i < n.len() implies n[i] != ' ' by {}
    assert forall|i: int| 0 <= i < m.len() implies m[i] != ' ' by {}
    lemma_cut(m, " at "@, tail);
    lemma_cut(n, " of window "@, rest);
    assert(line =~= n + " of window "@ + rest);
    assert(line[0] == n[0]);
    assert(line.last() == number::numeral(h as nat, 10)[number::numeral(h as nat, 10).len() - 1]);
    lemma_trim_plain(line);
}

/// A written place is one word, and reads back.
proof fn lemma_point(x: i32, y: i32)
    ensures
        text::is_word(number::written(x as int) + ","@ + number::written(y as int)),
        point(number::written(x as int) + ","@ + number::written(y as int)) == Some((x, y)),
{
    reveal_strlit(",");
    lemma_written(x as int);
    lemma_written(y as int);
    let a = number::written(x as int);
    let b = number::written(y as int);
    let s = a + ","@ + b;
    assert forall|i: int| 0 <= i < s.len() implies !text::is_space(#[trigger] s[i]) by {
        if i < a.len() {
            assert(s[i] == a[i]);
        } else if i > a.len() {
            assert(s[i] == b[i - a.len() - 1]);
        }
    }
    assert forall|i: int| 0 <= i < a.len() implies a[i] != ',' by {}
    lemma_cut(a, ","@, b);
}

/// A written size is one word, and reads back.
proof fn lemma_extent(w: u32, h: u32)
    ensures
        text::is_word(number::numeral(w as nat, 10) + "x"@ + number::numeral(h as nat, 10)),
        extent(number::numeral(w as nat, 10) + "x"@ + number::numeral(h as nat, 10)) == Some((w, h)),
{
    reveal_strlit("x");
    lemma_numeral(w as nat);
    lemma_numeral(h as nat);
    let a = number::numeral(w as nat, 10);
    let b = number::numeral(h as nat, 10);
    let s = a + "x"@ + b;
    assert forall|i: int| 0 <= i < s.len() implies !text::is_space(#[trigger] s[i]) by {
        if i < a.len() {
            assert(s[i] == a[i]);
        } else if i > a.len() {
            assert(s[i] == b[i - a.len() - 1]);
        }
    }
    assert forall|i: int| 0 <= i < a.len() implies a[i] != 'x' by {}
    lemma_cut(a, "x"@, b);
}

proof fn lemma_numeral_word(n: u32)
    ensures
        text::is_word(number::numeral(n as nat, 10)),
        number::u32_of(number::numeral(n as nat, 10)) == Some(n),
{
    lemma_numeral(n as nat);
    let a = number::numeral(n as nat, 10);
    assert forall|i: int| 0 <= i < a.len() implies !text::is_space(#[trigger] a[i]) by {}
}

/// How a place is written.
pub open spec fn written_point(x: i32, y: i32) -> Seq<char> {
    number::written(x as int) + ","@ + number::written(y as int)
}

/// How a size is written.
pub open spec fn written_extent(w: u32, h: u32) -> Seq<char> {
    number::numeral(w as nat, 10) + "x"@ + number::numeral(h as nat, 10)
}

/// A window's placement, written out, reads back as its three numbers, whatever words follow.
#[verifier::spinoff_prover]
#[verifier::rlimit(60)]
pub proof fn law_placement_reads_back(id: u32, x: i32, y: i32, more: Seq<char>)
    ensures
        placement(number::numeral(id as nat, 10) + " "@ + ("at"@ + " "@ + written_point(x, y))) == Some(
            (id, x, y),
        ),
        placement(
            number::numeral(id as nat, 10) + " "@ + ("at"@ + " "@ + (written_point(x, y) + " "@ + more)),
        ) == Some((id, x, y)),
{
    let n = number::numeral(id as nat, 10);
    let p = written_point(x, y);
    lemma_numeral_word(id);
    lemma_point(x, y);
    assert(text::is_word("at"@)) by {
        reveal_strlit("at");
    }
    text::lemma_words(p, more);
    text::lemma_words("at"@, p);
    text::lemma_words("at"@, p + " "@ + more);
    text::lemma_words(n, "at"@ + " "@ + p);
    text::lemma_words(n, "at"@ + " "@ + (p + " "@ + more));
}

/// A geometry, written out, reads back as its size, wherever its origin lies.
pub proof fn law_geometry_reads_back(origin: Seq<char>, w: u32, h: u32, more: Seq<char>)
    requires
        text::is_word(origin),
    ensures
        geometry(origin + " "@ + written_extent(w, h)) == Some((w, h)),
        geometry(origin + " "@ + (written_extent(w, h) + " "@ + more)) == Some((w, h)),
{
    let e = written_extent(w, h);
    lemma_extent(w, h);
    text::lemma_words(e, more);
    text::lemma_words(origin, e);
    text::lemma_words(origin, e + " "@ + more);
}

/// A work area, written out with the screen that it is part of, reads back as its six numbers.
#[verifier::spinoff_prover]
#[verifier::rlimit(60)]
pub proof fn law_work_area_reads_back(x: i32, y: i32, w: u32, h: u32, sw: u32, sh: u32)
    ensures
        work_area(
            written_point(x, y) + " "@ + (written_extent(w, h) + " "@ + ("of"@ + " "@ + written_extent(
                sw,
                sh,
            ))),
        ) == Some((x, y, w, h, sw, sh)),
{
    let p = written_point(x, y);
    let e = written_extent(w, h);
    let f = written_extent(sw, sh);
    lemma_point(x, y);
    lemma_extent(w, h);
    lemma_extent(sw, sh);
    assert(text::is_word("of"@)) by {
        reveal_strlit("of");
    }
    text::lemma_words(f, f);
    text::lemma_words("of"@, f);
    text::lemma_words(e, "of"@ + " "@ + f);
    text::lemma_words(p, e + " "@ + ("of"@ + " "@ + f));
}

/// A window's line, written out, reads back as its five numbers under its own verb, and as nothing
/// under another.
#[verifier::spinoff_prover]
#[verifier::rlimit(60)]
pub proof fn law_window_line_reads_back(
    id: u32,
    verb: Seq<char>,
    other: Seq<char>,
    x: i32,
    y: i32,
    w: u32,
    h: u32,
)
    requires
        text::is_word(verb),
    ensures
        window_line(
            number::numeral(id as nat, 10) + " "@ + (verb + " "@ + (written_point(x, y) + " "@
                + written_extent(w, h))),
            other,
        ) == if other == verb {
            Some((id, x, y, w, h))
        } else {
            None
        },
{
    let n = number::numeral(id as nat, 10);
    let p = written_point(x, y);
    let e = written_extent(w, h);
    lemma_numeral_word(id);
    lemma_point(x, y);
    lemma_extent(w, h);
    text::lemma_words(e, e);
    text::lemma_words(p, e);
    text::lemma_words(verb, p + " "@ + e);
    text::lemma_words(n, verb + " "@ + (p + " "@ + e));
}

/// A group that begins with a window's number and a colon is that window's, and no other's.
#[verifier::spinoff_prover]
#[verifier::rlimit(40)]
pub proof fn law_a_group_is_of_its_window(id: nat, other: nat, title: Seq<char>)
    ensures
        group_is(number::numeral(id, 10) + ":"@ + title, other) <==> id == other,
{
    reveal_strlit(":");
    number::law_numeral_reads_back(id, 10);
    number::law_numeral_reads_back(other, 10);
    let n = number::numeral(id, 10);
    assert forall|i: int| 0 <= i < n.len() implies n[i] != ':' && !text::is_space(#[trigger] n[i]) by {
        assert(number::digit_value(n[i]) < 10);
    }
    lemma_cut(n, ":"@, title);
    lemma_trim_plain(n);
}

/// A window's position in the task bar is that of its first group, counted from the first bracket; it
/// has none exactly where no group is its own.
pub proof fn law_a_slot_is_the_first_of_its_window(list: Seq<char>, id: u32)
    ensures
        ({
            let groups = text::split(list, "["@);
            match slot(list, id) {
                Some(k) => {
                    &&& 0 <= k && k + 1 < groups.len()
                    &&& group_is(groups[k + 1], id as nat)
                    &&& forall|j: int| 1 <= j <= k ==> !group_is(#[trigger] groups[j], id as nat)
                },
                None => forall|j: int| 1 <= j < groups.len() ==> !group_is(
                    #[trigger] groups[j],
                    id as nat,
                ),
            }
        }),
{
    lemma_slot_from(text::split(list, "["@), id, 1);
}

proof fn lemma_slot_from(groups: Seq<Seq<char>>, id: u32, from: int)
    requires
        from >= 1,
    ensures
        match slot_from(groups, id, from) {
            Some(k) => {
                &&& from <= k + 1 < groups.len()
                &&& group_is(groups[k + 1], id as nat)
                &&& forall|j: int| from <= j <= k ==> !group_is(#[trigger] groups[j], id as nat)
            },
            None => forall|j: int| from <= j < groups.len() ==> !group_is(
                #[trigger] groups[j],
                id as nat,
            ),
        },
    decreases groups.len() - from,
{
    if from < groups.len() && !group_is(groups[from], id as nat) {
        lemma_slot_from(groups, id, from + 1);
    }
}

} // verus!
