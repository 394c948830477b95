//! Deferred work: the markers in the source, the entries of the document that records them, and
//! whether each has the other.

use vstd::prelude::*;

use crate::text;

verus! {

/// What opens a marker: the four capitals and a parenthesis. The name and a closing parenthesis
/// follow.
pub open spec fn marker_open() -> Seq<char> {
    seq!['T', 'O', 'D', 'O', '(']
}

/// A name that can be searched for: letters, digits and hyphens of ASCII.
pub open spec fn is_tag(s: Seq<char>) -> bool {
    s.len() > 0 && forall|i: int|
        0 <= i < s.len() ==> text::is_alnum(#[trigger] s[i]) || s[i] == '-'
}

/// The names of the markers on a line, in order; a marker whose name is no plain word is passed
/// over, and one that is not closed ends the search.
pub open spec fn markers(line: Seq<char>) -> Seq<Seq<char>>
    decreases line.len(),
{
    proof {
        text::lemma_find(line, marker_open());
    }
    match text::find(line, marker_open()) {
        None => Seq::empty(),
        Some(i) => {
            let after = line.skip(i + 5);
            proof {
                text::lemma_find(after, ")"@);
            }
            match text::find(after, ")"@) {
                None => Seq::empty(),
                Some(j) => {
                    let tag = after.take(j);
                    let rest = markers(after.skip(j + ")"@.len()));
                    if is_tag(tag) {
                        seq![tag] + rest
                    } else {
                        rest
                    }
                },
            }
        },
    }
}

fn opening() -> (r: Vec<char>)
    ensures
        r@ == marker_open(),
{
    let mut v: Vec<char> = Vec::new();
    v.push('T');
    v.push('O');
    v.push('D');
    v.push('O');
    v.push('(');
    assert(v@ =~= marker_open());
    v
}

fn plain_word(s: &[char]) -> (r: bool)
    ensures
        r == is_tag(s@),
{
    if s.len() == 0 {
        return false;
    }
    let mut i: usize = 0;
    while i < s.len()
        invariant
            i <= s.len(),
            forall|j: int| 0 <= j < i ==> text::is_alnum(#[trigger] s@[j]) || s@[j] == '-',
        decreases s.len() - i,
    {
        if !(text::alnum(s[i]) || s[i] == '-') {
            assert(!(text::is_alnum(s@[i as int]) || s@[i as int] == '-'));
            return false;
        }
        i = i + 1;
    }
    true
}

fn read_markers(line: &[char]) -> (r: Vec<String>)
    ensures
        text::strs(r@) == markers(line@),
{
    let open = opening();
    let mut out: Vec<String> = Vec::new();
    let mut rest: &[char] = line;
    assert(text::strs(out@) =~= Seq::empty());
    assert(Seq::<Seq<char>>::empty() + markers(line@) =~= markers(line@));
    loop
        invariant_except_break
            text::strs(out@) + markers(rest@) == markers(line@),
        invariant
            open@ == marker_open(),
        ensures
            text::strs(out@) == markers(line@),
        decreases rest.len(),
    {
        proof {
            text::lemma_find(rest@, marker_open());
        }
        let after = match text::position(rest, open.as_slice()) {
            None => {
                assert(text::strs(out@) + Seq::<Seq<char>>::empty() =~= text::strs(out@));
                break;
            },
            Some(i) => text::skip(rest, i + 5),
        };
        match text::cut(after, ")") {
            None => {
                assert(text::strs(out@) + Seq::<Seq<char>>::empty() =~= text::strs(out@));
                break;
            },
            Some((tag, tail)) => {
                proof {
                    text::lemma_find(after@, ")"@);
                }
                if plain_word(tag) {
                    let t = text::string_of(tag);
                    proof {
                        text::lemma_strs_push(out@, t);
                        assert(text::strs(out@) + (seq![tag@] + markers(tail@)) =~= text::strs(
                            out@,
                        ).push(tag@) + markers(tail@));
                    }
                    out.push(t);
                }
                rest = tail;
            },
        }
    }
    out
}

/// The names of the markers on a line, in order.
pub fn markers_in_line(line: &str) -> (r: Vec<String>)
    ensures
        text::strs(r@) == markers(line@),
{
    let c = text::chars_of(line);
    read_markers(c.as_slice())
}

/// Every name on a line is a plain word.
pub proof fn law_markers_are_plain_words(line: Seq<char>)
    ensures
        forall|i: int| 0 <= i < markers(line).len() ==> is_tag(#[trigger] markers(line)[i]),
    decreases line.len(),
{
    text::lemma_find(line, marker_open());
    match text::find(line, marker_open()) {
        None => {},
        Some(i) => {
            let after = line.skip(i + 5);
            text::lemma_find(after, ")"@);
            match text::find(after, ")"@) {
                None => {},
                Some(j) => {
                    let rest = after.skip(j + ")"@.len());
                    law_markers_are_plain_words(rest);
                    assert forall|k: int| 0 <= k < markers(line).len() implies is_tag(
                        #[trigger] markers(line)[k],
                    ) by {
                        if is_tag(after.take(j)) {
                            if k > 0 {
                                assert(markers(line)[k] == markers(rest)[k - 1]);
                            }
                        } else {
                            assert(markers(line)[k] == markers(rest)[k]);
                        }
                    }
                },
            }
        },
    }
}

/// The part of the document that lists what is open: up to the heading of what is resolved.
pub open spec fn open_part(doc: Seq<char>) -> Seq<char> {
    match text::split_once(doc, "\n## Resolved"@) {
        Some((open, _)) => open,
        None => doc,
    }
}

/// The entries with one more naming of `tag`: a new entry, or the exemption of the one it has.
pub open spec fn named_once_more(
    entries: Seq<(Seq<char>, bool)>,
    tag: Seq<char>,
    exempt: bool,
) -> Seq<(Seq<char>, bool)> {
    match entry_of(entries, tag) {
        Some(i) => entries.update(i, (tag, entries[i].1 || exempt)),
        None => entries.push((tag, exempt)),
    }
}

/// The place of the first entry of `tag`.
pub open spec fn entry_of(entries: Seq<(Seq<char>, bool)>, tag: Seq<char>) -> Option<int>
    decreases entries.len(),
{
    if entries.len() == 0 {
        None
    } else {
        match entry_of(entries.drop_last(), tag) {
            Some(i) => Some(i),
            None => if entries.last().0 == tag {
                Some(entries.len() - 1)
            } else {
                None
            },
        }
    }
}

/// The entries with the tags of one line.
pub open spec fn with_tags(
    entries: Seq<(Seq<char>, bool)>,
    tags: Seq<Seq<char>>,
    exempt: bool,
) -> Seq<(Seq<char>, bool)>
    decreases tags.len(),
{
    if tags.len() == 0 {
        entries
    } else {
        named_once_more(with_tags(entries, tags.drop_last(), exempt), tags.last(), exempt)
    }
}

/// What marks an entry as having no place in the code.
pub open spec fn no_code_site() -> Seq<char> {
    "<!-- check-deferrals: no-code-site -->"@
}

/// The entries of the lines, in the order in which their tags are first named; an entry is exempt
/// where any line that names it says so.
pub open spec fn entries_of(ls: Seq<Seq<char>>) -> Seq<(Seq<char>, bool)>
    decreases ls.len(),
{
    if ls.len() == 0 {
        Seq::empty()
    } else {
        with_tags(
            entries_of(ls.drop_last()),
            markers(ls.last()),
            text::contains(ls.last(), no_code_site()),
        )
    }
}

/// What the entries hold.
pub open spec fn entry_views(v: Seq<(String, bool)>) -> Seq<(Seq<char>, bool)> {
    v.map_values(|e: (String, bool)| (e.0@, e.1))
}

fn note(out: &mut Vec<(String, bool)>, tag: &String, exempt: bool)
    ensures
        entry_views(final(out)@) == named_once_more(entry_views(old(out)@), tag@, exempt),
{
    let ghost all = entry_views(out@);
    let t = text::chars_of(tag.as_str());
    let mut i: usize = 0;
    while i < out.len()
        invariant
            i <= out.len(),
            out@ == old(out)@,
            all == entry_views(out@),
            t@ == tag@,
            entry_of(all.take(i as int), tag@) is None,
        decreases out.len() - i,
    {
        assert(all.take(i + 1).drop_last() =~= all.take(i as int));
        assert(all.take(i + 1).last() == all[i as int]);
        let n = text::chars_of(out[i].0.as_str());
        if text::same(n.as_slice(), t.as_slice()) {
            proof {
                lemma_entry_prefix(all, tag@, i + 1);
            }
            let was: bool = out[i].1;
            let e = (text::string_of(t.as_slice()), was || exempt);
            out.set(i, e);
            assert(entry_views(out@) =~= all.update(i as int, (tag@, all[i as int].1 || exempt)));
            return;
        }
        i = i + 1;
    }
    assert(all.take(i as int) =~= all);
    let e = (text::string_of(t.as_slice()), exempt);
    out.push(e);
    assert(entry_views(out@) =~= all.push((tag@, exempt)));
}

proof fn lemma_entry_prefix(entries: Seq<(Seq<char>, bool)>, tag: Seq<char>, k: int)
    requires
        0 <= k <= entries.len(),
        entry_of(entries.take(k), tag) is Some,
    ensures
        entry_of(entries, tag) == entry_of(entries.take(k), tag),
    decreases entries.len(),
{
    if k == entries.len() {
        assert(entries.take(k) =~= entries);
    } else {
        assert(entries.drop_last().take(k) =~= entries.take(k));
        lemma_entry_prefix(entries.drop_last(), tag, k);
    }
}

/// Every tag of the document's open section, with whether an entry of it is exempt from having a
/// marker in the code.
pub fn open_section_tags(doc: &str) -> (r: Vec<(String, bool)>)
    ensures
        entry_views(r@) == entries_of(text::lines(open_part(doc@))),
{
    let c = text::chars_of(doc);
    let open = match text::cut(c.as_slice(), "\n## Resolved") {
        Some((a, _)) => a,
        None => c.as_slice(),
    };
    let ls = text::lines_of(open);
    let ghost all = text::lines(open@);
    let mut out: Vec<(String, bool)> = Vec::new();
    let mut i: usize = 0;
    assert(entry_views(out@) =~= entries_of(all.take(0)));
    while i < ls.len()
        invariant
            i <= ls.len(),
            all == text::views(ls@),
            entry_views(out@) == entries_of(all.take(i as int)),
        decreases ls.len() - i,
    {
        assert(all.take(i + 1).drop_last() =~= all.take(i as int));
        assert(all.take(i + 1).last() == ls[i as int]@);
        let exempt = text::has_str(ls[i], "<!-- check-deferrals: no-code-site -->");
        let tags = read_markers(ls[i]);
        let ghost ts = text::strs(tags@);
        let ghost start = entry_views(out@);
        let mut k: usize = 0;
        assert(ts.take(0) =~= Seq::empty());
        while k < tags.len()
            invariant
                k <= tags.len(),
                ts == text::strs(tags@),
                entry_views(out@) == with_tags(start, ts.take(k as int), exempt),
            decreases tags.len() - k,
        {
            assert(ts.take(k + 1).drop_last() =~= ts.take(k as int));
            assert(ts.take(k + 1).last() == tags[k as int]@);
            note(&mut out, &tags[k], exempt);
            k = k + 1;
        }
        assert(ts.take(k as int) =~= ts);
        i = i + 1;
    }
    assert(all.take(i as int) =~= all);
    out
}

/// An entry is exempt exactly where some naming of it is.
proof fn lemma_named_once_more(entries: Seq<(Seq<char>, bool)>, tag: Seq<char>, exempt: bool, x: Seq<char>)
    requires
        distinct(entries),
    ensures
        distinct(named_once_more(entries, tag, exempt)),
        is_open(named_once_more(entries, tag, exempt), x) <==> is_open(entries, x) || x == tag,
        is_exempt(named_once_more(entries, tag, exempt), x) <==> is_exempt(entries, x) || (x == tag && exempt),
{
    lemma_entry_of(entries, tag);
    let after = named_once_more(entries, tag, exempt);
    match entry_of(entries, tag) {
        Some(i) => {
            assert(after[i] == (tag, entries[i].1 || exempt));
            assert forall|k: int| 0 <= k < entries.len() implies (#[trigger] after[k]).0 == entries[k].0 by {}
            if is_open(entries, x) {
                let k = choose|k: int| 0 <= k < entries.len() && (#[trigger] entries[k]).0 == x;
                assert(after[k].0 == x);
            }
            if is_open(after, x) {
                let k = choose|k: int| 0 <= k < after.len() && (#[trigger] after[k]).0 == x;
                assert(entries[k].0 == x);
            }
            if is_exempt(entries, x) {
                let k = choose|k: int| 0 <= k < entries.len() && #[trigger] entries[k] == (x, true);
                assert(after[k] == (x, true));
            }
            if is_exempt(after, x) {
                let k = choose|k: int| 0 <= k < after.len() && #[trigger] after[k] == (x, true);
                if k != i {
                    assert(entries[k] == (x, true));
                } else if !exempt {
                    assert(entries[i] == (x, true));
                }
            }
        },
        None => {
            assert(after.last() == (tag, exempt));
            assert(after[entries.len() as int] == (tag, exempt));
            if is_open(entries, x) {
                let k = choose|k: int| 0 <= k < entries.len() && (#[trigger] entries[k]).0 == x;
                assert(after[k].0 == x);
            }
            if is_open(after, x) {
                let k = choose|k: int| 0 <= k < after.len() && (#[trigger] after[k]).0 == x;
                if k < entries.len() {
                    assert(entries[k].0 == x);
                }
            }
            if is_exempt(entries, x) {
                let k = choose|k: int| 0 <= k < entries.len() && #[trigger] entries[k] == (x, true);
                assert(after[k] == (x, true));
            }
            if is_exempt(after, x) {
                let k = choose|k: int| 0 <= k < after.len() && #[trigger] after[k] == (x, true);
                if k < entries.len() {
                    assert(entries[k] == (x, true));
                }
            }
        },
    }
}

proof fn lemma_entry_of(entries: Seq<(Seq<char>, bool)>, tag: Seq<char>)
    ensures
        match entry_of(entries, tag) {
            Some(i) => 0 <= i < entries.len() && entries[i].0 == tag,
            None => forall|i: int| 0 <= i < entries.len() ==> (#[trigger] entries[i]).0 != tag,
        },
    decreases entries.len(),
{
    if entries.len() > 0 {
        lemma_entry_of(entries.drop_last(), tag);
        if entry_of(entries, tag) is None {
            assert forall|i: int| 0 <= i < entries.len() implies (#[trigger] entries[i]).0 != tag by {
                if i < entries.len() - 1 {
                    assert(entries.drop_last()[i] == entries[i]);
                }
            }
        }
    }
}

/// No tag has two entries.
pub open spec fn distinct(entries: Seq<(Seq<char>, bool)>) -> bool {
    forall|i: int, j: int|
        0 <= i < j < entries.len() ==> (#[trigger] entries[i]).0 != (#[trigger] entries[j]).0
}

/// `tag` has an entry.
pub open spec fn is_open(entries: Seq<(Seq<char>, bool)>, tag: Seq<char>) -> bool {
    exists|i: int| 0 <= i < entries.len() && (#[trigger] entries[i]).0 == tag
}

/// `tag` has an entry that is exempt.
pub open spec fn is_exempt(entries: Seq<(Seq<char>, bool)>, tag: Seq<char>) -> bool {
    exists|i: int| 0 <= i < entries.len() && #[trigger] entries[i] == (tag, true)
}

/// `tag` is named on the line.
pub open spec fn names(line: Seq<char>, tag: Seq<char>) -> bool {
    markers(line).contains(tag)
}

proof fn lemma_with_tags(
    entries: Seq<(Seq<char>, bool)>,
    tags: Seq<Seq<char>>,
    exempt: bool,
    x: Seq<char>,
)
    requires
        distinct(entries),
    ensures
        distinct(with_tags(entries, tags, exempt)),
        is_open(with_tags(entries, tags, exempt), x) <==> is_open(entries, x) || tags.contains(x),
        is_exempt(with_tags(entries, tags, exempt), x) <==> is_exempt(entries, x) || (exempt && tags.contains(x)),
    decreases tags.len(),
{
    if tags.len() > 0 {
        lemma_with_tags(entries, tags.drop_last(), exempt, x);
        lemma_named_once_more(with_tags(entries, tags.drop_last(), exempt), tags.last(), exempt, x);
        if tags.contains(x) {
            let k = choose|k: int| 0 <= k < tags.len() && tags[k] == x;
            if k < tags.len() - 1 {
                assert(tags.drop_last()[k] == x);
            }
        }
        if tags.drop_last().contains(x) {
            let k = choose|k: int| 0 <= k < tags.drop_last().len() && tags.drop_last()[k] == x;
            assert(tags[k] == x);
        }
        if x == tags.last() {
            assert(tags[tags.len() - 1] == x);
        }
    }
}

/// Each tag that the lines name has one entry, no other tag has one, and an entry is exempt
/// exactly where some line that names its tag carries the exemption: the first naming does not
/// decide.
pub proof fn law_exemption_counts_wherever_it_stands(ls: Seq<Seq<char>>, x: Seq<char>)
    ensures
        distinct(entries_of(ls)),
        is_open(entries_of(ls), x) <==> exists|i: int| 0 <= i < ls.len() && #[trigger] names(ls[i], x),
        is_exempt(entries_of(ls), x) <==> exists|i: int|
            0 <= i < ls.len() && #[trigger] names(ls[i], x) && text::contains(ls[i], no_code_site()),
    decreases ls.len(),
{
    if ls.len() > 0 {
        let init = ls.drop_last();
        let exempt = text::contains(ls.last(), no_code_site());
        law_exemption_counts_wherever_it_stands(init, x);
        lemma_with_tags(entries_of(init), markers(ls.last()), exempt, x);
        let last = ls.len() - 1;
        assert(ls.last() == ls[last]);
        if is_open(entries_of(init), x) {
            let i = choose|i: int| 0 <= i < init.len() && #[trigger] names(init[i], x);
            assert(names(ls[i], x));
        }
        if is_exempt(entries_of(init), x) {
            let i = choose|i: int| 0 <= i < init.len() && #[trigger] names(init[i], x) && text::contains(init[i], no_code_site());
            assert(names(ls[i], x) && text::contains(ls[i], no_code_site()));
        }
        if markers(ls.last()).contains(x) {
            assert(names(ls[last], x));
        }
        if exists|i: int| 0 <= i < ls.len() && #[trigger] names(ls[i], x) {
            let i = choose|i: int| 0 <= i < ls.len() && #[trigger] names(ls[i], x);
            if i < last {
                assert(names(init[i], x));
            }
        }
        if exists|i: int| 0 <= i < ls.len() && #[trigger] names(ls[i], x) && text::contains(ls[i], no_code_site()) {
            let i = choose|i: int| 0 <= i < ls.len() && #[trigger] names(ls[i], x) && text::contains(ls[i], no_code_site());
            if i < last {
                assert(names(init[i], x) && text::contains(init[i], no_code_site()));
            }
        }
    }
}

/// An ASCII capital as the small letter; any other character as it is.
pub open spec fn small(c: char) -> char {
    if 65 <= c as int <= 90 {
        (c as int + 32) as char
    } else {
        c
    }
}

/// A text with its ASCII capitals made small.
pub open spec fn small_text(s: Seq<char>) -> Seq<char> {
    s.map_values(|c: char| small(c))
}

/// A text of ASCII characters alone.
pub open spec fn is_ascii(s: Seq<char>) -> bool {
    forall|i: int| 0 <= i < s.len() ==> (#[trigger] s[i] as int) < 128
}

/// What `str::to_lowercase` makes of a text that is not ASCII alone.
pub uninterp spec fn lower_text(s: Seq<char>) -> Seq<char>;

/// A text in lower case.
pub open spec fn lowered(s: Seq<char>) -> Seq<char> {
    if is_ascii(s) {
        small_text(s)
    } else {
        lower_text(s)
    }
}

/// `str::to_lowercase`: it makes the capitals of an ASCII text small, and of any other text what is
/// a function of the text alone.
#[verifier::external_body]
fn lower(s: &str) -> (r: String)
    ensures
        is_ascii(s@) ==> r@ == small_text(s@),
        !is_ascii(s@) ==> r@ == lower_text(s@),
{
    s.to_lowercase()
}

/// The character with an ASCII capital made small.
pub fn small_of(c: char) -> (r: char)
    ensures
        r == small(c),
{
    let n: u32 = c as u32;
    if 65 <= n && n <= 90 {
        (n as u8 + 32) as char
    } else {
        c
    }
}

/// The text with its ASCII capitals made small.
pub fn small_chars(s: &[char]) -> (r: Vec<char>)
    ensures
        r@ == small_text(s@),
{
    let mut out: Vec<char> = Vec::new();
    let mut i: usize = 0;
    while i < s.len()
        invariant
            i <= s.len(),
            out@.len() == i,
            forall|j: int| 0 <= j < i ==> out@[j] == small(s@[j]),
        decreases s.len() - i,
    {
        out.push(small_of(s[i]));
        i = i + 1;
    }
    assert(out@ =~= small_text(s@));
    out
}

/// A marker in the source: where it stands, and its name.
#[derive(Debug)]
pub struct Site {
    /// The file.
    pub path: String,
    /// The line, counted from one.
    pub line: usize,
    /// The name.
    pub tag: String,
}

/// The marker that a line of the document, in small letters, must spell to record `tag`.
pub open spec fn record_of(tag: Seq<char>) -> Seq<char> {
    seq!['t', 'o', 'd', 'o', '('] + small_text(tag) + seq![')']
}

/// `tag` is recorded in a document whose small letters are `doc`.
pub open spec fn recorded(doc: Seq<char>, tag: Seq<char>) -> bool {
    text::contains(doc, record_of(tag))
}

/// Some site's tag is `tag`, the case of ASCII letters apart.
pub open spec fn is_backed(sites: Seq<Site>, tag: Seq<char>) -> bool {
    exists|i: int| 0 <= i < sites.len() && small_text((#[trigger] sites[i]).tag@) == small_text(tag)
}

/// What does not agree between the source and the document.
#[derive(Debug)]
pub struct Disagreement {
    /// The places, among the sites, of markers that the document does not record.
    pub unrecorded: Vec<usize>,
    /// The open tags that no marker backs and nothing exempts.
    pub unbacked: Vec<String>,
    /// How many open tags there are.
    pub open: usize,
    /// How many of them are exempt.
    pub exempt: usize,
}

/// The places of the unrecorded sites among the first `n`.
pub open spec fn unrecorded_sites(sites: Seq<Site>, doc: Seq<char>, n: int) -> Seq<usize>
    decreases n,
{
    if n <= 0 {
        Seq::empty()
    } else if recorded(doc, sites[n - 1].tag@) {
        unrecorded_sites(sites, doc, n - 1)
    } else {
        unrecorded_sites(sites, doc, n - 1).push((n - 1) as usize)
    }
}

/// The tags of the entries that nothing backs or exempts.
pub open spec fn unbacked_tags(entries: Seq<(Seq<char>, bool)>, sites: Seq<Site>) -> Seq<Seq<char>>
    decreases entries.len(),
{
    if entries.len() == 0 {
        Seq::empty()
    } else {
        let front = unbacked_tags(entries.drop_last(), sites);
        let e = entries.last();
        if e.1 || is_backed(sites, e.0) {
            front
        } else {
            front.push(e.0)
        }
    }
}

/// How many of the entries are exempt.
pub open spec fn exempt_count(entries: Seq<(Seq<char>, bool)>) -> nat
    decreases entries.len(),
{
    if entries.len() == 0 {
        0
    } else {
        exempt_count(entries.drop_last()) + if entries.last().1 {
            1nat
        } else {
            0nat
        }
    }
}

fn record(tag: &[char]) -> (r: Vec<char>)
    ensures
        r@ == record_of(tag@),
{
    let mut out: Vec<char> = Vec::new();
    out.push('t');
    out.push('o');
    out.push('d');
    out.push('o');
    out.push('(');
    let mut t = small_chars(tag);
    out.append(&mut t);
    out.push(')');
    assert(out@ =~= record_of(tag@));
    out
}

fn backed(sites: &Vec<Site>, tag: &str) -> (r: bool)
    ensures
        r == is_backed(sites@, tag@),
{
    let c = text::chars_of(tag);
    let want = small_chars(c.as_slice());
    let mut i: usize = 0;
    while i < sites.len()
        invariant
            i <= sites.len(),
            want@ == small_text(tag@),
            forall|k: int| 0 <= k < i ==> small_text((#[trigger] sites@[k]).tag@) != small_text(tag@),
        decreases sites.len() - i,
    {
        let s = text::chars_of(sites[i].tag.as_str());
        let n = small_chars(s.as_slice());
        if text::same(n.as_slice(), want.as_slice()) {
            assert(small_text(sites@[i as int].tag@) == small_text(tag@));
            return true;
        }
        i = i + 1;
    }
    false
}

/// Compares the markers of the source with the entries of the document, in both directions.
pub fn check_deferrals(doc: &str, sites: &Vec<Site>) -> (r: Disagreement)
    ensures
        r.unrecorded@ == unrecorded_sites(sites@, lowered(doc@), sites@.len() as int),
        text::strs(r.unbacked@) == unbacked_tags(
            entries_of(text::lines(open_part(doc@))),
            sites@,
        ),
        r.open == entries_of(text::lines(open_part(doc@))).len(),
        r.exempt == exempt_count(entries_of(text::lines(open_part(doc@)))),
{
    let low = lower(doc);
    compare(doc, low.as_str(), sites)
}

/// Compares the markers of the source with the entries of the document, whose small letters are
/// `low`.
pub fn compare(doc: &str, low: &str, sites: &Vec<Site>) -> (r: Disagreement)
    ensures
        r.unrecorded@ == unrecorded_sites(sites@, low@, sites@.len() as int),
        text::strs(r.unbacked@) == unbacked_tags(
            entries_of(text::lines(open_part(doc@))),
            sites@,
        ),
        r.open == entries_of(text::lines(open_part(doc@))).len(),
        r.exempt == exempt_count(entries_of(text::lines(open_part(doc@)))),
{
    let lc = text::chars_of(low);
    let mut unrecorded: Vec<usize> = Vec::new();
    let mut i: usize = 0;
    while i < sites.len()
        invariant
            i <= sites.len(),
            lc@ == low@,
            unrecorded@ == unrecorded_sites(sites@, low@, i as int),
        decreases sites.len() - i,
    {
        let t = text::chars_of(sites[i].tag.as_str());
        let want = record(t.as_slice());
        if !text::has(lc.as_slice(), want.as_slice()) {
            unrecorded.push(i);
        }
        i = i + 1;
    }
    let entries = open_section_tags(doc);
    let ghost all = entry_views(entries@);
    let mut unbacked: Vec<String> = Vec::new();
    let mut exempt: usize = 0;
    let mut k: usize = 0;
    assert(text::strs(unbacked@) =~= unbacked_tags(all.take(0), sites@));
    while k < entries.len()
        invariant
            k <= entries.len(),
            all == entry_views(entries@),
            exempt <= k,
            exempt == exempt_count(all.take(k as int)),
            text::strs(unbacked@) == unbacked_tags(all.take(k as int), sites@),
        decreases entries.len() - k,
    {
        assert(all.take(k + 1).drop_last() =~= all.take(k as int));
        assert(all.take(k + 1).last() == all[k as int]);
        let e = &entries[k];
        if e.1 {
            exempt = exempt + 1;
        } else if !backed(sites, e.0.as_str()) {
            let c = text::chars_of(e.0.as_str());
            let t = text::string_of(c.as_slice());
            proof {
                text::lemma_strs_push(unbacked@, t);
            }
            unbacked.push(t);
        }
        k = k + 1;
    }
    assert(all.take(k as int) =~= all);
    Disagreement { unrecorded, unbacked, open: entries.len(), exempt }
}

/// The tag of site `n` stands before it too.
pub open spec fn is_repeated(sites: Seq<Site>, n: int) -> bool {
    exists|j: int| 0 <= j < n && (#[trigger] sites[j]).tag@ == sites[n].tag@
}

/// How many tags the first `n` sites have, each counted once.
pub open spec fn tag_count(sites: Seq<Site>, n: int) -> nat
    decreases n,
{
    if n <= 0 {
        0
    } else if is_repeated(sites, n - 1) {
        tag_count(sites, n - 1)
    } else {
        tag_count(sites, n - 1) + 1
    }
}

/// How many tags the sites have, each counted once.
pub fn distinct_tags(sites: &Vec<Site>) -> (r: usize)
    ensures
        r == tag_count(sites@, sites@.len() as int),
{
    let mut n: usize = 0;
    let mut i: usize = 0;
    while i < sites.len()
        invariant
            i <= sites.len(),
            n <= i,
            n == tag_count(sites@, i as int),
        decreases sites.len() - i,
    {
        let want = text::chars_of(sites[i].tag.as_str());
        let mut repeated = false;
        let mut j: usize = 0;
        while j < i
            invariant
                j <= i,
                i < sites.len(),
                want@ == sites@[i as int].tag@,
                repeated == exists|k: int|
                    0 <= k < j && (#[trigger] sites@[k]).tag@ == sites@[i as int].tag@,
            decreases i - j,
        {
            let t = text::chars_of(sites[j].tag.as_str());
            if text::same(t.as_slice(), want.as_slice()) {
                assert(sites@[j as int].tag@ == sites@[i as int].tag@);
                repeated = true;
            }
            j = j + 1;
        }
        assert(repeated == is_repeated(sites@, i as int));
        if !repeated {
            n = n + 1;
        }
        i = i + 1;
    }
    n
}

/// The sites of one source file, in order.
pub open spec fn file_tags(ls: Seq<Seq<char>>) -> Seq<(nat, Seq<char>)>
    decreases ls.len(),
{
    if ls.len() == 0 {
        Seq::empty()
    } else {
        file_tags(ls.drop_last()) + markers(ls.last()).map_values(|t: Seq<char>| (ls.len(), t))
    }
}

/// What the markers of a file are: line numbers and names.
pub open spec fn site_views(v: Seq<(usize, String)>) -> Seq<(nat, Seq<char>)> {
    v.map_values(|s: (usize, String)| (s.0 as nat, s.1@))
}

/// The markers of a source file: the line of each, counted from one, and its name.
pub fn scan_source(source: &str) -> (r: Vec<(usize, String)>)
    ensures
        site_views(r@) == file_tags(text::lines(source@)),
{
    let c = text::chars_of(source);
    let ls = text::lines_of(c.as_slice());
    let ghost all = text::lines(source@);
    let mut out: Vec<(usize, String)> = Vec::new();
    let mut i: usize = 0;
    assert(site_views(out@) =~= file_tags(all.take(0)));
    while i < ls.len()
        invariant
            i <= ls.len(),
            all == text::views(ls@),
            site_views(out@) == file_tags(all.take(i as int)),
        decreases ls.len() - i,
    {
        assert(all.take(i + 1).drop_last() =~= all.take(i as int));
        assert(all.take(i + 1).last() == ls[i as int]@);
        let tags = read_markers(ls[i]);
        let ghost ts = text::strs(tags@);
        let ghost here = markers(ls[i as int]@).map_values(|t: Seq<char>| ((i + 1) as nat, t));
        let ghost start = site_views(out@);
        let mut k: usize = 0;
        assert(start + here.take(0) =~= start);
        while k < tags.len()
            invariant
                k <= tags.len(),
                i < ls.len(),
                ts == text::strs(tags@),
                ts == markers(ls[i as int]@),
                here == markers(ls[i as int]@).map_values(|t: Seq<char>| ((i + 1) as nat, t)),
                site_views(out@) == start + here.take(k as int),
            decreases tags.len() - k,
        {
            assert(ts[k as int] == tags[k as int]@);
            let t = text::chars_of(tags[k].as_str());
            let e = (i + 1, text::string_of(t.as_slice()));
            assert(site_views(out@.push(e)) =~= site_views(out@).push(((i + 1) as nat, e.1@)));
            out.push(e);
            assert(here.take(k + 1) =~= here.take(k as int).push(here[k as int]));
            assert(start + here.take(k + 1) =~= (start + here.take(k as int)).push(here[k as int]));
            k = k + 1;
        }
        assert(here.take(k as int) =~= here);
        assert(all.take(i + 1).len() == i + 1);
        i = i + 1;
    }
    assert(all.take(i as int) =~= all);
    out
}

/// Nothing disagrees exactly where the document records every marker and every open entry that is
/// not exempt has a marker.
pub proof fn law_both_directions_are_checked(
    sites: Seq<Site>,
    low: Seq<char>,
    entries: Seq<(Seq<char>, bool)>,
)
    ensures
        unrecorded_sites(sites, low, sites.len() as int).len() == 0 <==> forall|i: int|
            0 <= i < sites.len() ==> recorded(low, (#[trigger] sites[i]).tag@),
        unbacked_tags(entries, sites).len() == 0 <==> forall|i: int|
            0 <= i < entries.len() ==> (#[trigger] entries[i]).1 || is_backed(sites, entries[i].0),
{
    lemma_unrecorded(sites, low, sites.len() as int);
    lemma_unbacked(entries, sites);
}

proof fn lemma_unrecorded(sites: Seq<Site>, low: Seq<char>, n: int)
    requires
        0 <= n <= sites.len(),
    ensures
        unrecorded_sites(sites, low, n).len() == 0 <==> forall|i: int|
            0 <= i < n ==> recorded(low, (#[trigger] sites[i]).tag@),
    decreases n,
{
    if n > 0 {
        lemma_unrecorded(sites, low, n - 1);
        assert(sites[n - 1] == sites[n - 1]);
    }
}

proof fn lemma_unbacked(entries: Seq<(Seq<char>, bool)>, sites: Seq<Site>)
    ensures
        unbacked_tags(entries, sites).len() == 0 <==> forall|i: int|
            0 <= i < entries.len() ==> (#[trigger] entries[i]).1 || is_backed(sites, entries[i].0),
    decreases entries.len(),
{
    if entries.len() > 0 {
        let init = entries.drop_last();
        lemma_unbacked(init, sites);
        assert(entries.last() == entries[entries.len() - 1]);
        assert forall|i: int| 0 <= i < init.len() implies init[i] == entries[i] by {}
        if unbacked_tags(entries, sites).len() == 0 {
            assert forall|i: int| 0 <= i < entries.len() implies (#[trigger] entries[i]).1 || is_backed(sites, entries[i].0) by {
                if i < init.len() {
                    assert(init[i] == entries[i]);
                }
            }
        }
    }
}

/// A marker is found behind whatever holds none, and the search goes on behind it: its name counts
/// where it is a plain word of ASCII letters, digits and hyphens, and is passed over where it is not.
pub proof fn law_a_marker_is_found(before: Seq<char>, tag: Seq<char>, after: Seq<char>)
    requires
        text::find(before + seq!['T', 'O', 'D', 'O', '('], seq!['T', 'O', 'D', 'O', '(']) == Some(
            before.len() as int,
        ),
        text::lacks(tag, ')'),
    ensures
        ({
            let found = markers(before + seq!['T', 'O', 'D', 'O', '('] + (tag + ")"@ + after));
            let plain = tag.len() > 0 && forall|i: int|
                0 <= i < tag.len() ==> {
                    let c = #[trigger] tag[i] as int;
                    48 <= c <= 57 || 65 <= c <= 90 || 97 <= c <= 122 || c == 45
                };
            &&& plain ==> found == seq![tag] + markers(after)
            &&& !plain ==> found == markers(after)
        }),
{
    reveal_strlit(")");
    let open = seq!['T', 'O', 'D', 'O', '('];
    assert(marker_open() =~= open);
    let rest = tag + ")"@ + after;
    let line = before + open + rest;
    text::lemma_cut_first(before, open, rest);
    text::lemma_find(line, open);
    assert(line.skip(before.len() as int + 5) =~= rest);
    text::lemma_cut(tag, ")"@, after);
    assert(rest.take(tag.len() as int) =~= tag);
    assert(rest.skip(tag.len() as int + 1) =~= after);
    let plain = tag.len() > 0 && forall|i: int|
        0 <= i < tag.len() ==> {
            let c = #[trigger] tag[i] as int;
            48 <= c <= 57 || 65 <= c <= 90 || 97 <= c <= 122 || c == 45
        };
    if plain {
        assert forall|i: int| 0 <= i < tag.len() implies text::is_alnum(#[trigger] tag[i]) || tag[i]
            == '-' by {
            assert(tag[i] as int == tag[i] as int);
        }
    } else if is_tag(tag) {
        assert forall|i: int| 0 <= i < tag.len() implies {
            let c = #[trigger] tag[i] as int;
            48 <= c <= 57 || 65 <= c <= 90 || 97 <= c <= 122 || c == 45
        } by {
            assert(text::is_alnum(tag[i]) || tag[i] == '-');
        }
    }
}

/// A line without a marker's opening names nothing, and neither does one that is not closed.
pub proof fn law_an_open_marker_names_nothing(before: Seq<char>, rest: Seq<char>)
    requires
        text::find(before + seq!['T', 'O', 'D', 'O', '('], seq!['T', 'O', 'D', 'O', '(']) == Some(
            before.len() as int,
        ),
        text::lacks(rest, ')'),
    ensures
        markers(before + seq!['T', 'O', 'D', 'O', '('] + rest).len() == 0,
        forall|line: Seq<char>|
            !text::contains(line, seq!['T', 'O', 'D', 'O', '(']) ==> #[trigger] markers(line).len() == 0,
{
    reveal_strlit(")");
    let open = seq!['T', 'O', 'D', 'O', '('];
    assert(marker_open() =~= open);
    let line = before + open + rest;
    text::lemma_cut_first(before, open, rest);
    assert(line.skip(before.len() as int + 5) =~= rest);
    text::lemma_lacking(rest, ")"@, 0);
    assert forall|line: Seq<char>| !text::contains(line, open) implies #[trigger] markers(line).len()
        == 0 by {
        text::lemma_find(line, open);
    }
}

/// What is open stands before the first heading of what is resolved; without one, all of it is.
pub proof fn law_what_is_resolved_is_not_open(open: Seq<char>, resolved: Seq<char>)
    ensures
        text::find(open + "\n## Resolved"@, "\n## Resolved"@) == Some(open.len() as int) ==> open_part(
            open + "\n## Resolved"@ + resolved,
        ) == open,
        !text::contains(open, "\n## Resolved"@) ==> open_part(open) == open,
{
    reveal_strlit("\n## Resolved");
    if text::find(open + "\n## Resolved"@, "\n## Resolved"@) == Some(open.len() as int) {
        text::lemma_cut_first(open, "\n## Resolved"@, resolved);
    }
    text::lemma_find(open, "\n## Resolved"@);
}

/// An entry needs no place in the code exactly where some line that names it says so in its comment.
pub proof fn law_an_exemption_is_a_comment(ls: Seq<Seq<char>>, x: Seq<char>)
    ensures
        entries_of(ls).contains((x, true)) <==> exists|i: int|
            0 <= i < ls.len() && #[trigger] markers(ls[i]).contains(x) && text::contains(
                ls[i],
                "<!-- check-deferrals: no-code-site -->"@,
            ),
        entries_of(ls).contains((x, true)) || entries_of(ls).contains((x, false)) <==> exists|i: int|
            0 <= i < ls.len() && #[trigger] markers(ls[i]).contains(x),
{
    law_exemption_counts_wherever_it_stands(ls, x);
    let es = entries_of(ls);
    if is_exempt(es, x) {
        let i = choose|i: int| 0 <= i < ls.len() && #[trigger] names(ls[i], x) && text::contains(
            ls[i],
            no_code_site(),
        );
        assert(markers(ls[i]).contains(x));
    }
    if is_open(es, x) {
        let k = choose|k: int| 0 <= k < es.len() && (#[trigger] es[k]).0 == x;
        assert(es[k] == (x, true) || es[k] == (x, false));
        let i = choose|i: int| 0 <= i < ls.len() && #[trigger] names(ls[i], x);
        assert(markers(ls[i]).contains(x));
    }
    if exists|i: int| 0 <= i < ls.len() && #[trigger] markers(ls[i]).contains(x) {
        let i = choose|i: int| 0 <= i < ls.len() && #[trigger] markers(ls[i]).contains(x);
        assert(names(ls[i], x));
        if text::contains(ls[i], no_code_site()) {
            assert(is_exempt(es, x));
        }
    }
    assert forall|i: int|
        0 <= i < ls.len() && #[trigger] markers(ls[i]).contains(x) && text::contains(
            ls[i],
            "<!-- check-deferrals: no-code-site -->"@,
        ) implies is_exempt(es, x) by {
        assert(names(ls[i], x));
    }
}

/// A site is reported exactly where the document, in small letters, does not spell its marker.
pub proof fn law_an_unrecorded_site_is_reported(sites: Seq<Site>, low: Seq<char>, n: int, i: int)
    requires
        0 <= i < n <= sites.len() <= usize::MAX,
    ensures
        unrecorded_sites(sites, low, n).contains(i as usize) <==> !text::contains(
            low,
            seq!['t', 'o', 'd', 'o', '('] + small_text(sites[i].tag@) + seq![')'],
        ),
        forall|k: int|
            0 <= k < unrecorded_sites(sites, low, n).len() ==> (#[trigger] unrecorded_sites(
                sites,
                low,
                n,
            )[k]) < n,
    decreases n,
{
    let front = unrecorded_sites(sites, low, n - 1);
    if n == 1 {
        assert(front =~= Seq::empty());
    } else {
        law_an_unrecorded_site_is_reported(sites, low, n - 1, if i < n - 1 {
            i
        } else {
            0
        });
    }
    let all = unrecorded_sites(sites, low, n);
    if all != front {
        assert(all[front.len() as int] == (n - 1) as usize);
        if i < n - 1 && front.contains(i as usize) {
            let k = front.index_of(i as usize);
            assert(all[k] == i as usize);
        }
        if i < n - 1 && all.contains(i as usize) {
            let k = all.index_of(i as usize);
            assert(k < front.len());
            assert(front[k] == i as usize);
        }
    }
}

/// A tag is reported exactly where some entry that is not exempt has it and no site does, whatever the
/// case of their letters.
pub proof fn law_an_unbacked_entry_is_reported(
    entries: Seq<(Seq<char>, bool)>,
    sites: Seq<Site>,
    x: Seq<char>,
)
    ensures
        unbacked_tags(entries, sites).contains(x) <==> entries.contains((x, false)) && forall|i: int|
            0 <= i < sites.len() ==> small_text((#[trigger] sites[i]).tag@) != small_text(x),
    decreases entries.len(),
{
    if entries.len() > 0 {
        let front = unbacked_tags(entries.drop_last(), sites);
        let e = entries.last();
        law_an_unbacked_entry_is_reported(entries.drop_last(), sites, x);
        if entries.drop_last().contains((x, false)) {
            let k = entries.drop_last().index_of((x, false));
            assert(entries[k] == (x, false));
        }
        if entries.contains((x, false)) && e != (x, false) {
            let k = entries.index_of((x, false));
            assert(entries.drop_last()[k] == (x, false));
        }
        if e == (x, false) {
            assert(entries[entries.len() - 1] == (x, false));
        }
        if !(e.1 || is_backed(sites, e.0)) {
            let all = front.push(e.0);
            assert(all[front.len() as int] == e.0);
            if front.contains(x) {
                let k = front.index_of(x);
                assert(all[k] == x);
            }
            if all.contains(x) && e.0 != x {
                let k = all.index_of(x);
                assert(front[k] == x);
            }
        }
    }
}

/// The exempt entries are counted one by one.
pub proof fn law_exempt_entries_are_counted(a: Seq<(Seq<char>, bool)>, tag: Seq<char>, exempt: bool)
    ensures
        exempt_count(a.push((tag, exempt))) == exempt_count(a) + if exempt {
            1int
        } else {
            0int
        },
        exempt_count(Seq::empty()) == 0,
{
    assert(a.push((tag, exempt)).drop_last() =~= a);
}

/// As many tags are counted as the sites have different ones.
pub proof fn law_tags_are_counted_once(sites: Seq<Site>, n: int)
    requires
        0 <= n <= sites.len(),
    ensures
        tag_count(sites, n) == sites.take(n).map_values(|s: Site| s.tag@).to_set().len(),
    decreases n,
{
    let f = |s: Site| s.tag@;
    let tags = sites.take(n).map_values(f);
    if n == 0 {
        assert(tags =~= Seq::empty());
        assert(tags.to_set() =~= Set::empty());
    } else {
        law_tags_are_counted_once(sites, n - 1);
        let front = sites.take(n - 1).map_values(f);
        let last = sites[n - 1].tag@;
        assert(tags =~= front.push(last));
        vstd::seq_lib::seq_to_set_is_finite(front);
        assert(tags.to_set() =~= front.to_set().insert(last)) by {
            assert forall|t: Seq<char>| tags.to_set().contains(t) <==> front.to_set().insert(
                last,
            ).contains(t) by {
                if front.contains(t) {
                    let k = front.index_of(t);
                    assert(tags[k] == t);
                }
                if tags.contains(t) && t != last {
                    let k = tags.index_of(t);
                    assert(front[k] == t);
                }
                assert(tags[n - 1] == last);
            }
        }
        assert(front.contains(last) <==> is_repeated(sites, n - 1)) by {
            if front.contains(last) {
                let k = front.index_of(last);
                assert(sites[k].tag@ == last);
            }
            if is_repeated(sites, n - 1) {
                let j = choose|j: int| 0 <= j < n - 1 && (#[trigger] sites[j]).tag@ == sites[n - 1].tag@;
                assert(front[j] == last);
            }
        }
    }
}

/// A file's sites are its lines' markers, each with the number of its line, counted from one.
pub proof fn law_a_site_has_its_lines_number(ls: Seq<Seq<char>>, n: nat, tag: Seq<char>)
    ensures
        file_tags(ls).contains((n, tag)) <==> 1 <= n <= ls.len() && markers(ls[n - 1]).contains(tag),
    decreases ls.len(),
{
    if ls.len() > 0 {
        law_a_site_has_its_lines_number(ls.drop_last(), n, tag);
        let front = file_tags(ls.drop_last());
        let ms = markers(ls.last());
        let here = ms.map_values(|t: Seq<char>| (ls.len(), t));
        let all = file_tags(ls);
        assert(all == front + here);
        if front.contains((n, tag)) {
            let k = front.index_of((n, tag));
            assert(all[k] == (n, tag));
        }
        if n == ls.len() && ms.contains(tag) {
            let k = ms.index_of(tag);
            assert(here[k] == (n, tag));
            assert(all[front.len() + k] == (n, tag));
        }
        if all.contains((n, tag)) {
            let k = all.index_of((n, tag));
            if k < front.len() {
                assert(front[k] == (n, tag));
            } else {
                assert(here[k - front.len()] == (n, tag));
                assert(ms[k - front.len()] == tag);
            }
        }
        if 1 <= n < ls.len() {
            assert(ls.drop_last()[n - 1] == ls[n - 1]);
        }
    }
}

} // verus!
