//! The documentation's text: its inline code, which no link stands in, and the anchors that its
//! headings offer.

use vstd::prelude::*;

use crate::deferrals;
use crate::number;
use crate::text;

verus! {

/// `line` with each closed inline-code span blanked out. A backtick without a partner blanks
/// nothing.
pub open spec fn masked(line: Seq<char>) -> Seq<char>
    decreases line.len(),
{
    proof {
        text::lemma_find(line, seq!['`']);
    }
    match text::find(line, seq!['`']) {
        None => line,
        Some(i) => {
            let rest = line.skip(i + 1);
            proof {
                text::lemma_find(rest, seq!['`']);
            }
            match text::find(rest, seq!['`']) {
                None => line,
                Some(j) => line.take(i) + Seq::new((j + 2) as nat, |k: int| '\0') + masked(
                    rest.skip(j + 1),
                ),
            }
        },
    }
}

fn read_masked(line: &[char]) -> (r: Vec<char>)
    ensures
        r@ == masked(line@),
{
    let tick: [char; 1] = ['`'];
    assert(tick@ =~= seq!['`']);
    let mut out: Vec<char> = Vec::new();
    let mut rest: &[char] = line;
    assert(Seq::<char>::empty() + masked(line@) =~= masked(line@));
    loop
        invariant_except_break
            out@ + masked(rest@) == masked(line@),
        invariant
            tick@ == seq!['`'],
        ensures
            out@ == masked(line@),
        decreases rest.len(),
    {
        proof {
            text::lemma_find(rest@, seq!['`']);
        }
        let ghost start = out@;
        match text::position(rest, tick.as_slice()) {
            None => {
                text::extend(&mut out, rest);
                break;
            },
            Some(i) => {
                let after = text::skip(rest, i + 1);
                proof {
                    text::lemma_find(after@, seq!['`']);
                }
                match text::position(after, tick.as_slice()) {
                    None => {
                        text::extend(&mut out, rest);
                        break;
                    },
                    Some(j) => {
                        text::extend(&mut out, text::take(rest, i));
                        let ghost base = out@;
                        let mut k: usize = 0;
                        assert(base + Seq::new(0nat, |x: int| '\0') =~= base);
                        while k < j + 2
                            invariant
                                k <= j + 2,
                                j + 2 <= usize::MAX,
                                out@ == base + Seq::new(k as nat, |x: int| '\0'),
                            decreases j + 2 - k,
                        {
                            out.push('\0');
                            k = k + 1;
                            assert(out@ =~= base + Seq::new(k as nat, |x: int| '\0'));
                        }
                        let tail = text::skip(after, j + 1);
                        proof {
                            let blank = Seq::new((j + 2) as nat, |x: int| '\0');
                            let m = rest@.take(i as int) + blank + masked(tail@);
                            assert(masked(rest@) == m);
                            assert(start + m =~= out@ + masked(tail@));
                        }
                        rest = tail;
                    },
                }
            },
        }
    }
    out
}

/// Blanks out the closed inline-code spans of a line.
pub fn mask_code_spans(line: &str) -> (r: String)
    ensures
        r@ == masked(line@),
{
    let c = text::chars_of(line);
    let m = read_masked(c.as_slice());
    text::string_of(m.as_slice())
}

/// Masking leaves at most one backtick, so no closed span is left for a link to stand in.
pub proof fn law_masking_leaves_no_code(line: Seq<char>)
    ensures
        forall|i: int, j: int|
            0 <= i < j < masked(line).len() ==> !(#[trigger] masked(line)[i] == '`'
                && #[trigger] masked(line)[j] == '`'),
    decreases line.len(),
{
    let tick = seq!['`'];
    text::lemma_find(line, tick);
    match text::find(line, tick) {
        None => {
            lemma_no_tick(line);
        },
        Some(i) => {
            let rest = line.skip(i + 1);
            text::lemma_find(rest, tick);
            lemma_first_tick(line, i);
            match text::find(rest, tick) {
                None => {
                    lemma_no_tick(rest);
                    assert forall|a: int, b: int| 0 <= a < b < line.len() implies !(
                    #[trigger] line[a] == '`' && #[trigger] line[b] == '`') by {
                        if b > i {
                            assert(rest[b - i - 1] == line[b]);
                        }
                    }
                },
                Some(j) => {
                    let tail = rest.skip(j + 1);
                    law_masking_leaves_no_code(tail);
                    let n = i + j + 2;
                    assert forall|a: int, b: int| 0 <= a < b < masked(line).len() implies !(
                    #[trigger] masked(line)[a] == '`' && #[trigger] masked(line)[b] == '`') by {
                        if a < i {
                            assert(masked(line)[a] == line[a]);
                        } else if a >= n {
                            assert(masked(line)[a] == masked(tail)[a - n]);
                            assert(masked(line)[b] == masked(tail)[b - n]);
                        }
                    }
                },
            }
        },
    }
}

proof fn lemma_no_tick(s: Seq<char>)
    requires
        text::find(s, seq!['`']) is None,
    ensures
        forall|k: int| 0 <= k < s.len() ==> #[trigger] s[k] != '`',
{
    text::lemma_find(s, seq!['`']);
    assert forall|k: int| 0 <= k < s.len() implies #[trigger] s[k] != '`' by {
        if s[k] == '`' {
            assert(s.subrange(k, k + 1) =~= seq!['`']);
            assert(text::occurs_at(s, seq!['`'], k));
        }
    }
}

proof fn lemma_first_tick(s: Seq<char>, i: int)
    requires
        text::find(s, seq!['`']) == Some(i),
    ensures
        forall|k: int| 0 <= k < i ==> #[trigger] s[k] != '`',
{
    text::lemma_find(s, seq!['`']);
    assert forall|k: int| 0 <= k < i implies #[trigger] s[k] != '`' by {
        if s[k] == '`' {
            assert(s.subrange(k, k + 1) =~= seq!['`']);
            assert(text::occurs_at(s, seq!['`'], k));
        }
    }
}

/// Masking keeps every character in its place.
pub proof fn law_masking_keeps_places(line: Seq<char>)
    ensures
        masked(line).len() == line.len(),
        forall|i: int| 0 <= i < line.len() ==> #[trigger] masked(line)[i] == line[i] || masked(line)[i] == '\0',
    decreases line.len(),
{
    text::lemma_find(line, seq!['`']);
    match text::find(line, seq!['`']) {
        None => {},
        Some(i) => {
            let rest = line.skip(i + 1);
            text::lemma_find(rest, seq!['`']);
            match text::find(rest, seq!['`']) {
                None => {},
                Some(j) => {
                    let tail = rest.skip(j + 1);
                    law_masking_keeps_places(tail);
                    assert forall|k: int| 0 <= k < line.len() implies #[trigger] masked(line)[k] == line[k] || masked(line)[k] == '\0' by {
                        if k >= i + j + 2 {
                            assert(masked(line)[k] == masked(tail)[k - i - j - 2]);
                            assert(tail[k - i - j - 2] == line[k]);
                        }
                    }
                },
            }
        },
    }
}

/// Whether `char::is_alphanumeric` holds of a character.
pub uninterp spec fn unicode_alphanumeric(c: char) -> bool;

/// `char::is_alphanumeric`: its result is a function of the character alone.
#[verifier::external_body]
fn alphanumeric(c: char) -> (r: bool)
    ensures
        r == unicode_alphanumeric(c),
{
    c.is_alphanumeric()
}

/// What `char::to_lowercase` makes of a character.
pub uninterp spec fn unicode_lowercase(c: char) -> Seq<char>;

/// `char::to_lowercase`, written out: its result is a function of the character alone.
#[verifier::external_body]
fn lowercase(c: char) -> (r: String)
    ensures
        r@ == unicode_lowercase(c),
{
    c.to_lowercase().to_string()
}

/// What one character of a heading adds to its slug: letters and digits in lower case, a hyphen
/// for a space or a hyphen, an underscore for itself, nothing for the rest.
pub open spec fn slug_char(c: char) -> Seq<char> {
    if text::is_alnum(c) {
        seq![deferrals::small(c)]
    } else if c == ' ' || c == '-' {
        seq!['-']
    } else if c == '_' {
        seq!['_']
    } else if (c as int) < 128 {
        Seq::empty()
    } else if unicode_alphanumeric(c) {
        unicode_lowercase(c)
    } else {
        Seq::empty()
    }
}

/// The slug of a heading's title.
pub open spec fn slug(title: Seq<char>) -> Seq<char>
    decreases title.len(),
{
    if title.len() == 0 {
        Seq::empty()
    } else {
        slug(title.drop_last()) + slug_char(title.last())
    }
}

/// The explicit anchors on a line: the quoted values behind `<a …id=` and `<a …name=`.
pub open spec fn explicit_anchors(line: Seq<char>) -> Seq<Seq<char>>
    decreases line.len(),
{
    proof {
        reveal_strlit("<a ");
        reveal_strlit("\"");
        text::lemma_find(line, "<a "@);
    }
    match text::find(line, "<a "@) {
        None => Seq::empty(),
        Some(i) => {
            let rest = line.skip(i + "<a "@.len());
            proof {
                text::lemma_find(rest, "\""@);
            }
            match text::find(rest, "\""@) {
                None => Seq::empty(),
                Some(j) => {
                    let key = text::trim(rest.take(j));
                    let after = rest.skip(j + "\""@.len());
                    proof {
                        text::lemma_find(after, "\""@);
                    }
                    match text::find(after, "\""@) {
                        None => Seq::empty(),
                        Some(k) => {
                            let tail = explicit_anchors(after.skip(k + "\""@.len()));
                            if text::ends_with(key, "id="@) || text::ends_with(key, "name="@) {
                                seq![after.take(k)] + tail
                            } else {
                                tail
                            }
                        },
                    }
                },
            }
        },
    }
}

/// How many times `c` stands at the front of `s`.
pub open spec fn run(s: Seq<char>, c: char) -> int {
    s.len() - text::trim_start_char(s, c).len()
}

/// The fence that a line begins with, white space set aside: its character, and how many of it there
/// are, which are three or more.
pub open spec fn fence(line: Seq<char>) -> Option<(char, int)> {
    let t = text::trim_start(line);
    if t.len() > 0 && (t[0] == '`' || t[0] == '~') && run(t, t[0]) >= 3 {
        Some((t[0], run(t, t[0])))
    } else {
        None
    }
}

/// What stands on a line behind its fence.
pub open spec fn behind_fence(line: Seq<char>) -> Seq<char> {
    let t = text::trim_start(line);
    text::trim_start_char(t, t[0])
}

/// The fence with which a line opens fenced code. One of backticks has no more of them behind it:
/// that is inline code.
pub open spec fn opened(line: Seq<char>) -> Option<(char, int)> {
    match fence(line) {
        Some(f) => if f.0 == '`' && behind_fence(line).contains('`') {
            None
        } else {
            Some(f)
        },
        None => None,
    }
}

/// A line closes the code that the fence `f` opened: it is a fence of the same character, no
/// shorter, with nothing behind it.
pub open spec fn closes(line: Seq<char>, f: (char, int)) -> bool {
    fence(line) matches Some(g) && g.0 == f.0 && g.1 >= f.1 && text::trim(
        behind_fence(line),
    ).len() == 0
}

/// The title of a heading; empty where the line is none.
pub open spec fn title(line: Seq<char>) -> Seq<char> {
    let t = text::trim_start(line);
    if t.len() > 0 && t[0] == '#' {
        text::trim(text::trim_start_char(t, '#'))
    } else {
        Seq::empty()
    }
}

/// The fence that opened the code which is open after the first `n` lines, if any is.
pub open spec fn open_fence(ls: Seq<Seq<char>>, n: int) -> Option<(char, int)>
    decreases n,
{
    if n <= 0 {
        None
    } else {
        match open_fence(ls, n - 1) {
            Some(f) => if closes(ls[n - 1], f) {
                None
            } else {
                Some(f)
            },
            None => opened(ls[n - 1]),
        }
    }
}

/// Line `i` is a heading.
pub open spec fn is_heading(ls: Seq<Seq<char>>, i: int) -> bool {
    open_fence(ls, i) is None && title(ls[i]).len() > 0
}

/// A slug with a number behind it.
pub open spec fn suffixed(s: Seq<char>, n: nat) -> Seq<char> {
    s + "-"@ + number::numeral(n, 10)
}

/// The first number from `k` on with which `s` is none of the anchors `given`. Where `s` itself is
/// given there is one that is no more than how many are.
pub open spec fn first_free(given: Seq<Seq<char>>, s: Seq<char>, k: nat) -> nat
    decreases given.len() - k,
{
    if k >= given.len() || !given.contains(suffixed(s, k)) {
        k
    } else {
        first_free(given, s, k + 1)
    }
}

/// The anchor of a heading with the slug `s` behind headings with the anchors `given`: the slug, and
/// where that is given already the first number that makes it new.
pub open spec fn new_anchor(given: Seq<Seq<char>>, s: Seq<char>) -> Seq<char> {
    if given.contains(s) {
        suffixed(s, first_free(given, s, 1))
    } else {
        s
    }
}

/// The anchors of the headings among the first `n` lines, in order.
pub open spec fn of_headings(ls: Seq<Seq<char>>, n: int) -> Seq<Seq<char>>
    decreases n,
{
    if n <= 0 {
        Seq::empty()
    } else {
        let given = of_headings(ls, n - 1);
        if is_heading(ls, n - 1) {
            given.push(new_anchor(given, slug(title(ls[n - 1]))))
        } else {
            given
        }
    }
}

/// The anchors that the first `n` lines offer, in order.
pub open spec fn anchors(ls: Seq<Seq<char>>, n: int) -> Seq<Seq<char>>
    decreases n,
{
    if n <= 0 {
        Seq::empty()
    } else {
        let front = anchors(ls, n - 1) + explicit_anchors(ls[n - 1]);
        if is_heading(ls, n - 1) {
            front.push(of_headings(ls, n).last())
        } else {
            front
        }
    }
}

fn read_slug(t: &[char]) -> (r: Vec<char>)
    ensures
        r@ == slug(t@),
{
    let mut out: Vec<char> = Vec::new();
    let mut i: usize = 0;
    assert(t@.take(0) =~= Seq::<char>::empty());
    while i < t.len()
        invariant
            i <= t.len(),
            out@ == slug(t@.take(i as int)),
        decreases t.len() - i,
    {
        assert(t@.take(i + 1).drop_last() =~= t@.take(i as int));
        let ghost start = out@;
        let c: char = t[i];
        assert(t@.take(i + 1).last() == c);
        if text::alnum(c) {
            out.push(deferrals::small_of(c));
        } else if c == ' ' || c == '-' {
            out.push('-');
        } else if c == '_' {
            out.push('_');
        } else if text::code(c) >= 128 && alphanumeric(c) {
            let low = lowercase(c);
            let l = text::chars_of(low.as_str());
            text::extend(&mut out, l.as_slice());
        }
        assert(out@ =~= start + slug_char(c));
        i = i + 1;
    }
    assert(t@.take(i as int) =~= t@);
    out
}

fn read_explicit(line: &[char], out: &mut Vec<String>)
    ensures
        text::strs(final(out)@) == text::strs(old(out)@) + explicit_anchors(line@),
{
    proof {
        reveal_strlit("<a ");
        reveal_strlit("\"");
    }
    let ghost all = text::strs(out@) + explicit_anchors(line@);
    let mut rest: &[char] = line;
    loop
        invariant_except_break
            text::strs(out@) + explicit_anchors(rest@) == all,
        ensures
            text::strs(out@) == all,
        decreases rest.len(),
    {
        proof {
            reveal_strlit("<a ");
            reveal_strlit("\"");
            text::lemma_find(rest@, "<a "@);
        }
        let body = match text::cut(rest, "<a ") {
            None => {
                assert(text::strs(out@) + Seq::<Seq<char>>::empty() =~= text::strs(out@));
                break;
            },
            Some((_, b)) => b,
        };
        proof {
            text::lemma_find(body@, "\""@);
        }
        let (key, after) = match text::cut(body, "\"") {
            None => {
                assert(text::strs(out@) + Seq::<Seq<char>>::empty() =~= text::strs(out@));
                break;
            },
            Some((k, a)) => (k, a),
        };
        proof {
            text::lemma_find(after@, "\""@);
        }
        let (val, tail) = match text::cut(after, "\"") {
            None => {
                assert(text::strs(out@) + Seq::<Seq<char>>::empty() =~= text::strs(out@));
                break;
            },
            Some((v, t)) => (v, t),
        };
        let k = text::trimmed(key);
        if text::ends(k, "id=") || text::ends(k, "name=") {
            let v = text::string_of(val);
            proof {
                text::lemma_strs_push(out@, v);
                let t = explicit_anchors(tail@);
                assert(text::strs(out@) + (seq![v@] + t) =~= text::strs(out@).push(v@) + t);
            }
            out.push(v);
        }
        rest = tail;
    }
}

fn read_title(line: &[char]) -> (r: &[char])
    ensures
        r@ == title(line@),
{
    let t = text::trimmed_start(line);
    if t.len() > 0 && t[0] == '#' {
        text::trimmed(text::trimmed_char(t, '#'))
    } else {
        let e = text::take(t, 0);
        assert(e@ =~= Seq::<char>::empty());
        e
    }
}

/// The fence that a line begins with, and what stands behind it.
fn read_fence(line: &[char]) -> (r: Option<(char, usize, &[char])>)
    ensures
        match r {
            Some((c, n, rest)) => fence(line@) == Some((c, n as int)) && rest@ == behind_fence(line@),
            None => fence(line@) is None,
        },
{
    let t = text::trimmed_start(line);
    if t.len() == 0 || (t[0] != '`' && t[0] != '~') {
        return None;
    }
    let rest = text::trimmed_char(t, t[0]);
    proof {
        lemma_run(t@, t@[0]);
    }
    let n: usize = t.len() - rest.len();
    if n < 3 {
        None
    } else {
        Some((t[0], n, rest))
    }
}

proof fn lemma_run(s: Seq<char>, c: char)
    ensures
        run(s, c) >= 0,
    decreases s.len(),
{
    if s.len() > 0 && s[0] == c {
        lemma_run(s.skip(1), c);
    }
}

/// The fence that is open behind a line, where `before` is the one in front of it.
fn next_fence(line: &[char], before: Option<(char, usize)>) -> (r: Option<(char, usize)>)
    ensures
        fence_view(r) == match fence_view(before) {
            Some(f) => if closes(line@, f) {
                None
            } else {
                Some(f)
            },
            None => opened(line@),
        },
{
    match read_fence(line) {
        None => before,
        Some((c, n, rest)) => match before {
            Some((m, k)) => {
                if c == m && n >= k && text::trimmed(rest).len() == 0 {
                    None
                } else {
                    before
                }
            },
            None => {
                if c == '`' && has_char(rest, '`') {
                    None
                } else {
                    Some((c, n))
                }
            },
        },
    }
}

spec fn fence_view(f: Option<(char, usize)>) -> Option<(char, int)> {
    match f {
        Some((c, n)) => Some((c, n as int)),
        None => None,
    }
}

fn has_char(s: &[char], c: char) -> (r: bool)
    ensures
        r == s@.contains(c),
{
    let mut i: usize = 0;
    while i < s.len()
        invariant
            i <= s.len(),
            forall|j: int| 0 <= j < i ==> s@[j] != c,
        decreases s.len() - i,
    {
        if s[i] == c {
            return true;
        }
        i = i + 1;
    }
    false
}

/// What the texts hold.
spec fn char_views(v: Seq<Vec<char>>) -> Seq<Seq<char>> {
    v.map_values(|x: Vec<char>| x@)
}

fn is_given(given: &Vec<Vec<char>>, s: &[char]) -> (r: bool)
    ensures
        r == char_views(given@).contains(s@),
{
    let ghost all = char_views(given@);
    let mut i: usize = 0;
    while i < given.len()
        invariant
            i <= given.len(),
            all == char_views(given@),
            forall|j: int| 0 <= j < i ==> all[j] != s@,
        decreases given.len() - i,
    {
        assert(all[i as int] == given[i as int]@);
        if text::same(given[i].as_slice(), s) {
            return true;
        }
        i = i + 1;
    }
    false
}

fn with_suffix(s: &[char], n: usize) -> (r: Vec<char>)
    ensures
        r@ == suffixed(s@, n as nat),
{
    proof {
        reveal_strlit("-");
    }
    let mut a: Vec<char> = Vec::new();
    text::extend(&mut a, s);
    a.push('-');
    let d = number::write_number(n as u64, 10);
    text::extend(&mut a, d.as_slice());
    assert(a@ =~= suffixed(s@, n as nat));
    a
}

fn make_anchor(given: &Vec<Vec<char>>, s: &[char]) -> (r: Vec<char>)
    ensures
        r@ == new_anchor(char_views(given@), s@),
{
    let ghost all = char_views(given@);
    if !is_given(given, s) {
        let mut a: Vec<char> = Vec::new();
        text::extend(&mut a, s);
        assert(a@ =~= s@);
        return a;
    }
    let mut k: usize = 1;
    let mut a = with_suffix(s, k);
    while k < given.len() && is_given(given, a.as_slice())
        invariant
            all == char_views(given@),
            all.len() == given.len(),
            a@ == suffixed(s@, k as nat),
            first_free(all, s@, 1) == first_free(all, s@, k as nat),
        decreases given.len() - k,
    {
        k = k + 1;
        a = with_suffix(s, k);
    }
    a
}

/// Every anchor that a document offers: one for each heading, and the explicit ones.
pub fn heading_anchors(doc: &str) -> (r: Vec<String>)
    ensures
        text::strs(r@) == anchors(text::lines(doc@), text::lines(doc@).len() as int),
{
    let c = text::chars_of(doc);
    let ls = text::lines_of(c.as_slice());
    let ghost all = text::lines(doc@);
    let mut out: Vec<String> = Vec::new();
    let mut given: Vec<Vec<char>> = Vec::new();
    let mut fenced: Option<(char, usize)> = None;
    let mut i: usize = 0;
    assert(text::views(ls@).len() == ls.len());
    assert(text::strs(out@) =~= anchors(all, 0));
    assert(char_views(given@) =~= of_headings(all, 0));
    while i < ls.len()
        invariant
            i <= ls.len(),
            ls.len() == all.len(),
            all == text::views(ls@),
            fence_view(fenced) == open_fence(all, i as int),
            text::strs(out@) == anchors(all, i as int),
            char_views(given@) == of_headings(all, i as int),
        decreases ls.len() - i,
    {
        assert(all[i as int] == ls[i as int]@);
        let line = ls[i];
        read_explicit(line, &mut out);
        if fenced.is_none() {
            let t = read_title(line);
            if t.len() > 0 {
                let sl = read_slug(t);
                let a = make_anchor(&given, sl.as_slice());
                let s = text::string_of(a.as_slice());
                proof {
                    text::lemma_strs_push(out@, s);
                    assert(is_heading(all, i as int));
                    assert(char_views(given@.push(a)) =~= char_views(given@).push(a@));
                }
                out.push(s);
                given.push(a);
            }
        }
        fenced = next_fence(line, fenced);
        i = i + 1;
    }
    out
}

/// Headings inside fenced code are not headings: from a line that opens code up to the first that
/// closes it, no heading is added.
pub proof fn law_fenced_headings_offer_nothing(ls: Seq<Seq<char>>, a: int, b: int)
    requires
        0 <= a < b <= ls.len(),
        open_fence(ls, a) is None,
        opened(ls[a]) is Some,
        forall|i: int| a < i < b ==> !closes(#[trigger] ls[i], opened(ls[a])->0),
    ensures
        open_fence(ls, b) == opened(ls[a]),
        of_headings(ls, b) == of_headings(ls, a),
    decreases b,
{
    if b == a + 1 {
        let t = text::trim_start(ls[a]);
        assert(t[0] != '#');
    } else {
        law_fenced_headings_offer_nothing(ls, a, b - 1);
        assert(!closes(ls[b - 1], opened(ls[a])->0));
    }
}

/// Different numbers make different anchors of a slug, and none of them is the slug.
proof fn lemma_suffixes_differ(s: Seq<char>, i: nat, j: nat)
    ensures
        suffixed(s, i) != s,
        suffixed(s, i) == suffixed(s, j) ==> i == j,
{
    reveal_strlit("-");
    number::law_numeral_reads_back(i, 10);
    number::law_numeral_reads_back(j, 10);
    let n = s.len() as int + 1;
    assert(suffixed(s, i).skip(n) =~= number::numeral(i, 10));
    assert(suffixed(s, j).skip(n) =~= number::numeral(j, 10));
    assert(suffixed(s, i).len() > s.len());
}

/// Among the anchors `given` are not a slug and as many numbered ones of it as there are anchors.
proof fn lemma_not_all_given(given: Seq<Seq<char>>, s: Seq<char>)
    requires
        given.contains(s),
        forall|j: nat| 1 <= j < given.len() ==> given.contains(#[trigger] suffixed(s, j)),
    ensures
        !given.contains(suffixed(s, given.len())),
{
    let n = given.len();
    if given.contains(suffixed(s, n)) {
        let c = Seq::new(
            n + 1,
            |j: int|
                if j == 0 {
                    s
                } else {
                    suffixed(s, j as nat)
                },
        );
        assert forall|i: int, j: int| 0 <= i < c.len() && 0 <= j < c.len() && i != j implies c[i]
            != c[j] by {
            lemma_suffixes_differ(s, i as nat, j as nat);
            lemma_suffixes_differ(s, j as nat, i as nat);
        }
        c.unique_seq_to_set();
        given.lemma_cardinality_of_set();
        assert forall|x: Seq<char>| c.to_set().contains(x) implies given.to_set().contains(x) by {
            let j = choose|j: int| 0 <= j < c.len() && c[j] == x;
            assert(j == 0 || given.contains(suffixed(s, j as nat)));
        }
        vstd::set_lib::lemma_len_subset(c.to_set(), given.to_set());
    }
}

proof fn lemma_first_free(given: Seq<Seq<char>>, s: Seq<char>, k: nat)
    requires
        given.contains(s),
        1 <= k <= given.len(),
        forall|j: nat| 1 <= j < k ==> given.contains(#[trigger] suffixed(s, j)),
    ensures
        ({
            let n = first_free(given, s, k);
            &&& k <= n
            &&& !given.contains(suffixed(s, n))
            &&& forall|j: nat| 1 <= j < n ==> given.contains(#[trigger] suffixed(s, j))
        }),
    decreases given.len() - k,
{
    if k >= given.len() {
        lemma_not_all_given(given, s);
    } else if given.contains(suffixed(s, k)) {
        lemma_first_free(given, s, k + 1);
    }
}

/// A repeated slug gets the least number that makes it new: every smaller one is given already.
pub proof fn law_a_repeat_gets_the_first_free_number(given: Seq<Seq<char>>, s: Seq<char>)
    requires
        given.contains(s),
    ensures
        ({
            let n = first_free(given, s, 1);
            &&& new_anchor(given, s) == suffixed(s, n)
            &&& n >= 1
            &&& !given.contains(suffixed(s, n))
            &&& forall|j: nat| 1 <= j < n ==> given.contains(#[trigger] suffixed(s, j))
        }),
{
    lemma_first_free(given, s, 1);
}

/// No two headings of a document have the same anchor.
pub proof fn law_heading_anchors_are_distinct(ls: Seq<Seq<char>>, n: int)
    requires
        n <= ls.len(),
    ensures
        of_headings(ls, n).no_duplicates(),
    decreases n,
{
    if n > 0 {
        law_heading_anchors_are_distinct(ls, n - 1);
        let given = of_headings(ls, n - 1);
        if is_heading(ls, n - 1) {
            let s = slug(title(ls[n - 1]));
            if given.contains(s) {
                lemma_first_free(given, s, 1);
            }
            assert(!given.contains(new_anchor(given, s)));
        }
    }
}

/// A closed span of inline code is blanked with its backticks, and nothing else is: what stands before
/// it stays, and what stands behind it is masked in turn.
pub proof fn law_a_code_span_is_masked(before: Seq<char>, inside: Seq<char>, after: Seq<char>)
    requires
        text::lacks(before, '`'),
        text::lacks(inside, '`'),
    ensures
        masked(before) == before,
        masked(before + seq!['`'] + inside) == before + seq!['`'] + inside,
        masked(before + seq!['`'] + (inside + seq!['`'] + after)) == before + Seq::new(
            inside.len() + 2,
            |k: int| '\0',
        ) + masked(after),
{
    let tick = seq!['`'];
    text::lemma_lacking(before, tick, 0);
    text::lemma_lacking(inside, tick, 0);
    text::lemma_cut(before, tick, inside);
    assert((before + tick + inside).skip(before.len() as int + 1) =~= inside);
    let rest = inside + tick + after;
    let line = before + tick + rest;
    text::lemma_cut(before, tick, rest);
    assert(line.skip(before.len() as int + 1) =~= rest);
    text::lemma_cut(inside, tick, after);
    assert(rest.skip(inside.len() as int + 1) =~= after);
    assert(line.take(before.len() as int) =~= before);
    assert(masked(line) =~= before + Seq::new(inside.len() + 2, |k: int| '\0') + masked(after));
}

/// The slug of a title is made part by part.
pub proof fn law_slugs_are_made_part_by_part(a: Seq<char>, b: Seq<char>)
    ensures
        slug(a + b) == slug(a) + slug(b),
    decreases b.len(),
{
    if b.len() == 0 {
        assert(a + b =~= a);
        assert(slug(a) + slug(b) =~= slug(a));
    } else {
        law_slugs_are_made_part_by_part(a, b.drop_last());
        assert((a + b).drop_last() =~= a + b.drop_last());
        assert((a + b).last() == b.last());
        assert(slug(a + b) =~= slug(a) + slug(b));
    }
}

/// A small letter, a digit, a hyphen and an underscore stand for themselves in a slug, a capital for
/// its small letter and a space for a hyphen; any other character of ASCII leaves no trace.
pub proof fn law_a_slug_is_small_and_hyphenated(c: char)
    requires
        (c as int) < 128,
    ensures
        ({
            let n = c as int;
            let s = slug(seq![c]);
            if 97 <= n <= 122 || 48 <= n <= 57 || c == '-' || c == '_' {
                s == seq![c]
            } else if 65 <= n <= 90 {
                s.len() == 1 && s[0] as int == n + 32
            } else if c == ' ' {
                s == seq!['-']
            } else {
                s.len() == 0
            }
        }),
{
    reveal_with_fuel(slug, 2);
    assert(seq![c].drop_last() =~= Seq::empty());
    assert(seq![c].last() == c);
    assert(slug(seq![c]) =~= slug_char(c));
}

/// `n` times the character `c`.
pub open spec fn times(c: char, n: nat) -> Seq<char> {
    Seq::new(n, |i: int| c)
}

proof fn lemma_times(c: char, n: nat, rest: Seq<char>)
    requires
        rest.len() == 0 || rest[0] != c,
    ensures
        text::trim_start_char(times(c, n) + rest, c) == rest,
        run(times(c, n) + rest, c) == n,
    decreases n,
{
    let s = times(c, n) + rest;
    if n == 0 {
        assert(s =~= rest);
    } else {
        lemma_times(c, (n - 1) as nat, rest);
        assert(s.skip(1) =~= times(c, (n - 1) as nat) + rest);
        assert(s[0] == c);
    }
}

/// A line of one or more number signs, a space and a title has that title, and a line that begins
/// otherwise has none.
pub proof fn law_a_heading_has_its_title(n: nat, words: Seq<char>, line: Seq<char>)
    requires
        n > 0,
        words.len() > 0,
        !text::is_space(words[0]),
        !text::is_space(words.last()),
    ensures
        title(times('#', n) + (seq![' '] + words)) == words,
        text::trim_start(line).len() == 0 || text::trim_start(line)[0] != '#' ==> title(line).len() == 0,
{
    let rest = seq![' '] + words;
    let l = times('#', n) + rest;
    lemma_times('#', n, rest);
    assert(l[0] == '#');
    assert(text::trim_start(l) == l);
    assert(rest.skip(1) =~= words);
    reveal_with_fuel(text::trim_start, 2);
    assert(text::trim_start(rest) == words);
    text::lemma_trim_plain(words);
}

/// Three or more backticks or tildes open code under whatever is named behind them, unless backticks
/// follow backticks there; fewer open nothing.
#[verifier::spinoff_prover]
#[verifier::rlimit(60)]
pub proof fn law_a_fence_is_three_or_more(tilde: bool, n: nat, info: Seq<char>)
    requires
        n > 0,
        info.len() == 0 || (info[0] != '`' && info[0] != '~'),
    ensures
        ({
            let c = if tilde {
                '~'
            } else {
                '`'
            };
            let line = times(c, n) + info;
            let inline_code = !tilde && exists|i: int| 0 <= i < info.len() && info[i] == '`';
            opened(line) == if n >= 3 && !inline_code {
                Some((c, n as int))
            } else {
                None
            }
        }),
{
    let c = if tilde {
        '~'
    } else {
        '`'
    };
    let line = times(c, n) + info;
    lemma_times(c, n, info);
    assert(line[0] == c);
    assert(text::trim_start(line) == line);
}

/// Code is closed by a fence of the same character that is no shorter than the one that opened it and
/// has nothing behind it.
#[verifier::spinoff_prover]
#[verifier::rlimit(60)]
pub proof fn law_code_is_closed_by_its_own_fence(n: nat, m: nat, info: Seq<char>)
    requires
        n >= 3,
        m > 0,
        info.len() > 0,
        info[0] != '`',
        info[0] != '~',
        !text::is_space(info[0]),
    ensures
        closes(times('`', m), ('`', n as int)) <==> m >= n,
        closes(times('~', m), ('~', n as int)) <==> m >= n,
        !closes(times('~', m), ('`', n as int)),
        !closes(times('`', m), ('~', n as int)),
        !closes(times('`', m) + info, ('`', n as int)),
        !closes(times('~', m) + info, ('~', n as int)),
{
    let none = Seq::<char>::empty();
    lemma_times('`', m, none);
    lemma_times('~', m, none);
    lemma_times('`', m, info);
    lemma_times('~', m, info);
    assert(times('`', m) + none =~= times('`', m));
    assert(times('~', m) + none =~= times('~', m));
    assert(times('`', m)[0] == '`');
    assert(times('~', m)[0] == '~');
    assert((times('`', m) + info)[0] == '`');
    assert((times('~', m) + info)[0] == '~');
    assert(text::trim(none).len() == 0);
    assert(text::trim_start(info) == info);
    lemma_trim_end_keeps(info);
}

proof fn lemma_trim_end_keeps(s: Seq<char>)
    requires
        s.len() > 0,
        !text::is_space(s[0]),
    ensures
        text::trim_end(s).len() > 0,
    decreases s.len(),
{
    if text::is_space(s.last()) {
        lemma_trim_end_keeps(s.drop_last());
    }
}

/// The quoted value behind `id=` or `name=` in an `<a` tag is an anchor, the value of another attribute
/// is none, and the search goes on behind it.
#[verifier::spinoff_prover]
#[verifier::rlimit(40)]
pub proof fn law_an_explicit_anchor_is_read(
    before: Seq<char>,
    other: Seq<char>,
    value: Seq<char>,
    after: Seq<char>,
)
    requires
        text::lacks(before, '<'),
        text::lacks(other, '"'),
        text::lacks(value, '"'),
        other.len() == 0 || !text::is_space(other[0]),
    ensures
        explicit_anchors(before + "<a "@ + (other + "id="@ + "\""@ + (value + "\""@ + after))) == seq![
            value,
        ] + explicit_anchors(after),
        explicit_anchors(before + "<a "@ + (other + "name="@ + "\""@ + (value + "\""@ + after)))
            == seq![value] + explicit_anchors(after),
        explicit_anchors(before + "<a "@ + (other + "href="@ + "\""@ + (value + "\""@ + after)))
            == explicit_anchors(after),
        explicit_anchors(before).len() == 0,
{
    assert("id="@.len() == 3 && "id="@[0] == 'i' && "id="@[1] == 'd' && "id="@[2] == '=') by {
        reveal_strlit("id=");
    }
    assert("name="@.len() == 5 && "name="@[0] == 'n' && "name="@[1] == 'a' && "name="@[2] == 'm'
        && "name="@[3] == 'e' && "name="@[4] == '=') by {
        reveal_strlit("name=");
    }
    assert("href="@.len() == 5 && "href="@[0] == 'h' && "href="@[1] == 'r' && "href="@[2] == 'e'
        && "href="@[3] == 'f' && "href="@[4] == '=') by {
        reveal_strlit("href=");
    }
    assert("<a "@.len() == 3 && "<a "@[0] == '<') by {
        reveal_strlit("<a ");
    }
    text::lemma_lacking(before, "<a "@, 0);
    lemma_anchor(before, other + "id="@, value, after);
    lemma_anchor(before, other + "name="@, value, after);
    lemma_anchor(before, other + "href="@, value, after);
    text::lemma_stands(other, "id="@, Seq::empty());
    text::lemma_stands(other, "name="@, Seq::empty());
    let h = other + "href="@;
    assert(h[h.len() - 2] == 'f');
    if text::ends_with(h, "id="@) {
        assert(h.skip(h.len() - 3)[1] == h[h.len() - 2]);
    }
    if text::ends_with(h, "name="@) {
        assert(h.skip(h.len() - 5)[3] == h[h.len() - 2]);
    }
}

#[verifier::spinoff_prover]
#[verifier::rlimit(60)]
proof fn lemma_anchor(before: Seq<char>, key: Seq<char>, value: Seq<char>, after: Seq<char>)
    requires
        text::lacks(before, '<'),
        text::lacks(key, '"'),
        text::lacks(value, '"'),
        key.len() > 0,
        !text::is_space(key[0]),
        !text::is_space(key.last()),
    ensures
        explicit_anchors(before + "<a "@ + (key + "\""@ + (value + "\""@ + after))) == if text::ends_with(
            key,
            "id="@,
        ) || text::ends_with(key, "name="@) {
            seq![value] + explicit_anchors(after)
        } else {
            explicit_anchors(after)
        },
{
    assert("<a "@.len() == 3 && "<a "@[0] == '<') by {
        reveal_strlit("<a ");
    }
    assert("\""@.len() == 1 && "\""@[0] == '"') by {
        reveal_strlit("\"");
    }
    let tail = value + "\""@ + after;
    let rest = key + "\""@ + tail;
    let line = before + "<a "@ + rest;
    text::lemma_cut(before, "<a "@, rest);
    assert(line.skip(before.len() as int + 3) =~= rest);
    text::lemma_cut(key, "\""@, tail);
    assert(rest.take(key.len() as int) =~= key);
    assert(rest.skip(key.len() as int + 1) =~= tail);
    text::lemma_trim_plain(key);
    text::lemma_cut(value, "\""@, after);
    assert(tail.take(value.len() as int) =~= value);
    assert(tail.skip(value.len() as int + 1) =~= after);
}

/// Line `i` offers the anchor: it is explicit there, or the one of the heading there.
pub open spec fn offers(ls: Seq<Seq<char>>, i: int, x: Seq<char>) -> bool {
    explicit_anchors(ls[i]).contains(x) || (is_heading(ls, i) && of_headings(ls, i + 1).last() == x)
}

/// The anchors of a document are the explicit ones of its lines and one for each heading, and no other.
pub proof fn law_every_anchor_comes_from_a_line(ls: Seq<Seq<char>>, n: int, x: Seq<char>)
    requires
        0 <= n <= ls.len(),
    ensures
        anchors(ls, n).contains(x) <==> exists|i: int| 0 <= i < n && #[trigger] offers(ls, i, x),
    decreases n,
{
    if n > 0 {
        let m = n - 1;
        law_every_anchor_comes_from_a_line(ls, m, x);
        let old = anchors(ls, m);
        let here = explicit_anchors(ls[m]);
        let front = old + here;
        let all = anchors(ls, n);
        if old.contains(x) {
            let k = old.index_of(x);
            assert(all[k] == x);
            let i = choose|i: int| 0 <= i < m && #[trigger] offers(ls, i, x);
            assert(offers(ls, i, x));
        }
        if here.contains(x) {
            let k = here.index_of(x);
            assert(front[old.len() + k] == x);
            assert(all[old.len() + k] == x);
        }
        if is_heading(ls, m) {
            assert(all[front.len() as int] == of_headings(ls, n).last());
        }
        if all.contains(x) && !old.contains(x) {
            let k = all.index_of(x);
            if k < old.len() {
                assert(old[k] == x);
            } else if k < front.len() {
                assert(here[k - old.len()] == x);
            }
            assert(offers(ls, m, x));
        }
        assert forall|i: int| 0 <= i < n && #[trigger] offers(ls, i, x) implies all.contains(x) by {
            if i < m {
                assert(old.contains(x));
            }
        }
    }
}

proof fn lemma_heading_is_offered(ls: Seq<Seq<char>>, n: int, x: Seq<char>)
    requires
        0 <= n <= ls.len(),
        of_headings(ls, n).contains(x),
    ensures
        anchors(ls, n).contains(x),
    decreases n,
{
    if n > 0 {
        let given = of_headings(ls, n - 1);
        let front = anchors(ls, n - 1) + explicit_anchors(ls[n - 1]);
        let all = anchors(ls, n);
        if given.contains(x) {
            lemma_heading_is_offered(ls, n - 1, x);
            let k = anchors(ls, n - 1).index_of(x);
            assert(front[k] == x);
            assert(all[k] == x);
        } else {
            let k = of_headings(ls, n).index_of(x);
            assert(k == given.len());
            assert(all[front.len() as int] == x);
        }
    }
}

/// A link to a heading by its slug resolves, whether the heading is the first with that slug or not.
#[verifier::spinoff_prover]
#[verifier::rlimit(60)]
pub proof fn law_a_headings_slug_resolves(ls: Seq<Seq<char>>, i: int, n: nat, words: Seq<char>)
    requires
        0 <= i < ls.len(),
        open_fence(ls, i) is None,
        n > 0,
        words.len() > 0,
        !text::is_space(words[0]),
        !text::is_space(words.last()),
        ls[i] == times('#', n) + (seq![' '] + words),
    ensures
        anchors(ls, i + 1).contains(slug(words)),
{
    law_a_heading_has_its_title(n, words, ls[i]);
    let given = of_headings(ls, i);
    let all = of_headings(ls, i + 1);
    if given.contains(slug(words)) {
        let k = given.index_of(slug(words));
        assert(all[k] == slug(words));
    } else {
        assert(all[given.len() as int] == slug(words));
    }
    lemma_heading_is_offered(ls, i + 1, slug(words));
}

} // verus!
