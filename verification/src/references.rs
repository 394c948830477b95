//! What a document refers to: its links, its heading links, and the paths it cites.

use vstd::prelude::*;

use crate::deferrals;
use crate::docs;
use crate::text;

verus! {

/// What kind of thing a document refers to.
#[derive(Debug, Clone, Copy, PartialEq, Eq, Structural)]
pub enum Kind {
    /// A heading of another document, or of the document itself where the target is empty.
    Heading,
    /// Another document, by a link.
    Link,
    /// A document, by its path from the root.
    CitedPath,
    /// A document, by its bare name.
    CitedName,
    /// A source file, by its path from the root.
    Source,
}

/// A reference: its kind, its target, and the anchor of a heading link.
pub struct Ref {
    pub kind: Kind,
    pub target: Seq<char>,
    pub anchor: Seq<char>,
}

/// A reference of a document.
#[derive(Debug)]
pub struct Reference {
    /// The line, counted from one.
    pub line: usize,
    pub kind: Kind,
    pub target: String,
    /// The anchor of a heading link; empty for any other kind.
    pub anchor: String,
}

impl Reference {
    /// What the reference says.
    pub open spec fn says(&self) -> (nat, Ref) {
        (
            self.line as nat,
            Ref { kind: self.kind, target: self.target@, anchor: self.anchor@ },
        )
    }
}

/// What the references say.
pub open spec fn says(v: Seq<Reference>) -> Seq<(nat, Ref)> {
    v.map_values(|r: Reference| r.says())
}

/// The targets of the links on a line whose code is masked.
pub open spec fn link_targets(line: Seq<char>) -> Seq<Seq<char>>
    decreases line.len(),
{
    proof {
        reveal_strlit("](");
        reveal_strlit(")");
        text::lemma_find(line, "]("@);
    }
    match text::find(line, "]("@) {
        None => Seq::empty(),
        Some(i) => {
            let after = line.skip(i + "]("@.len());
            proof {
                text::lemma_find(after, ")"@);
            }
            match text::find(after, ")"@) {
                None => Seq::empty(),
                Some(j) => seq![after.take(j)] + link_targets(after.skip(j + ")"@.len())),
            }
        },
    }
}

/// An anchor that names lines of a file, not a heading: `L` and then digits, hyphens and `L`s.
pub open spec fn is_line_anchor(a: Seq<char>) -> bool {
    a.len() > 0 && a[0] == 'L' && forall|i: int|
        1 <= i < a.len() ==> text::is_digit(#[trigger] a[i]) || a[i] == '-' || a[i] == 'L'
}

/// The file of a link's target: what stands before its `#`.
pub open spec fn target_file(t: Seq<char>) -> Seq<char> {
    text::split(t, "#"@)[0]
}

/// A path without what names nothing at its end: slashes, and dots that stand alone.
pub open spec fn without_tail(file: Seq<char>) -> Seq<char>
    decreases file.len(),
{
    let n = file.len() as int;
    if n > 0 && file.last() == '/' {
        without_tail(file.drop_last())
    } else if n > 1 && file.last() == '.' && file[n - 2] == '/' {
        without_tail(file.take(n - 2))
    } else {
        file
    }
}

/// The path's last part has the extension `md`, and something in front of it.
pub open spec fn has_md_extension(file: Seq<char>) -> bool {
    let f = without_tail(file);
    text::ends_with(f, ".md"@) && f != ".md"@ && !text::ends_with(f, "/.md"@)
}

fn tail_dropped(file: &[char]) -> (r: &[char])
    ensures
        r@ == without_tail(file@),
{
    let mut n: usize = file.len();
    assert(file@.take(n as int) =~= file@);
    loop
        invariant
            n <= file.len(),
            without_tail(file@) == without_tail(file@.take(n as int)),
        ensures
            n <= file.len(),
            without_tail(file@) == file@.take(n as int),
        decreases n,
    {
        if n > 0 && file[n - 1] == '/' {
            assert(file@.take(n as int).drop_last() =~= file@.take(n - 1));
            n = n - 1;
        } else if n > 1 && file[n - 1] == '.' && file[n - 2] == '/' {
            assert(file@.take(n as int).take(n - 2) =~= file@.take(n - 2));
            n = n - 2;
        } else {
            break;
        }
    }
    text::take(file, n)
}

fn md_extension(file: &[char]) -> (r: bool)
    ensures
        r == has_md_extension(file@),
{
    let f = tail_dropped(file);
    text::ends(f, ".md") && !text::equals(f, ".md") && !text::ends(f, "/.md")
}

/// What a link refers to.
pub open spec fn link_refs(t: Seq<char>) -> Seq<Ref> {
    let file = target_file(t);
    if text::contains(t, "://"@) {
        Seq::empty()
    } else {
        let heading = match text::split_once(t, "#"@) {
            Some((_, a)) => if a.len() > 0 && !is_line_anchor(a) && (file.len() == 0
                || has_md_extension(file)) {
                seq![Ref { kind: Kind::Heading, target: file, anchor: a }]
            } else {
                Seq::empty()
            },
            None => Seq::empty(),
        };
        if file.len() > 0 && text::ends_with(file, ".md"@) {
            heading.push(Ref { kind: Kind::Link, target: file, anchor: Seq::empty() })
        } else {
            heading
        }
    }
}

/// What the links refer to, in order.
pub open spec fn all_link_refs(ts: Seq<Seq<char>>) -> Seq<Ref>
    decreases ts.len(),
{
    if ts.len() == 0 {
        Seq::empty()
    } else {
        all_link_refs(ts.drop_last()) + link_refs(ts.last())
    }
}

/// What marks a line whose references may be missing.
pub open spec fn allowance() -> Seq<char> {
    "<!-- check-docs: allow-missing -->"@
}

/// The document that a piece of inline code cites.
pub open spec fn doc_ref(piece: Seq<char>) -> Option<Ref> {
    if !text::ends_with(piece, ".md"@) || text::contains(piece, "*"@) || text::contains(
        piece,
        " "@,
    ) {
        None
    } else if text::starts_with(piece, "docs/"@) {
        Some(Ref { kind: Kind::CitedPath, target: piece, anchor: Seq::empty() })
    } else if !text::contains(piece, "/"@) {
        Some(Ref { kind: Kind::CitedName, target: piece, anchor: Seq::empty() })
    } else {
        None
    }
}

/// The source file that a piece of inline code cites.
pub open spec fn source_ref(piece: Seq<char>) -> Option<Ref> {
    if (text::starts_with(piece, "kernel/"@) || text::starts_with(piece, "userspace/"@)
        || text::starts_with(piece, "tools/"@)) && (text::ends_with(piece, ".rs"@)
        || text::ends_with(piece, ".toml"@)) && !text::contains(piece, " "@) && !text::contains(
        piece,
        "<"@,
    ) && !text::contains(piece, ">"@) {
        Some(Ref { kind: Kind::Source, target: piece, anchor: Seq::empty() })
    } else {
        None
    }
}

/// The documents that the pieces cite, in order.
pub open spec fn doc_refs(ps: Seq<Seq<char>>) -> Seq<Ref>
    decreases ps.len(),
{
    if ps.len() == 0 {
        Seq::empty()
    } else {
        match doc_ref(ps.last()) {
            Some(r) => doc_refs(ps.drop_last()).push(r),
            None => doc_refs(ps.drop_last()),
        }
    }
}

/// The source files that the pieces cite, in order.
pub open spec fn source_refs(ps: Seq<Seq<char>>) -> Seq<Ref>
    decreases ps.len(),
{
    if ps.len() == 0 {
        Seq::empty()
    } else {
        match source_ref(ps.last()) {
            Some(r) => source_refs(ps.drop_last()).push(r),
            None => source_refs(ps.drop_last()),
        }
    }
}

/// The pieces of inline code on a line.
pub open spec fn code_pieces(line: Seq<char>) -> Seq<Seq<char>> {
    text::odd_pieces(text::split(line, "`"@))
}

/// What a line refers to. A record's cited paths are history and are not read; source paths are
/// read of documents alone that describe what is current.
pub open spec fn line_refs(line: Seq<char>, current: bool, record: bool) -> Seq<Ref> {
    let allowed = text::contains(line, allowance());
    let links = all_link_refs(link_targets(docs::masked(line)));
    let cited = if allowed || record {
        Seq::empty()
    } else {
        doc_refs(code_pieces(line))
    };
    let sources = if allowed || !current {
        Seq::empty()
    } else {
        source_refs(code_pieces(line))
    };
    links + cited + sources
}

/// What the first `n` lines refer to, with the lines counted from one.
pub open spec fn refs(ls: Seq<Seq<char>>, n: int, current: bool, record: bool) -> Seq<(nat, Ref)>
    decreases n,
{
    if n <= 0 {
        Seq::empty()
    } else {
        refs(ls, n - 1, current, record) + line_refs(ls[n - 1], current, record).map_values(
            |r: Ref| (n as nat, r),
        )
    }
}

/// The document describes how the system is now, by its path.
pub open spec fn is_current(path: Seq<char>) -> bool {
    let p = text::replace(path, "\\"@, "/"@);
    text::contains(p, "/docs/spec/"@) || text::contains(p, "/docs/reference/"@) || text::contains(
        p,
        "/docs/architecture/"@,
    ) || text::contains(p, "/docs/conventions/"@)
}

/// The document is a record of how the system was, by its path.
pub open spec fn is_archive(path: Seq<char>) -> bool {
    let p = text::replace(path, "\\"@, "/"@);
    text::ends_with(p, "/docs/decision-log.md"@) || text::contains(p, "/docs/archive/"@)
}

/// Whether a document describes how the system is now.
pub fn describes_current(path: &str) -> (r: bool)
    ensures
        r == is_current(path@),
{
    proof {
        reveal_strlit("\\");
    }
    let c = text::chars_of(path);
    let p = text::replaced(c.as_slice(), "\\", "/");
    text::has_str(p.as_slice(), "/docs/spec/") || text::has_str(p.as_slice(), "/docs/reference/")
        || text::has_str(p.as_slice(), "/docs/architecture/") || text::has_str(
        p.as_slice(),
        "/docs/conventions/",
    )
}

/// Whether a document is a record of how the system was.
pub fn is_record(path: &str) -> (r: bool)
    ensures
        r == is_archive(path@),
{
    proof {
        reveal_strlit("\\");
    }
    let c = text::chars_of(path);
    let p = text::replaced(c.as_slice(), "\\", "/");
    text::ends(p.as_slice(), "/docs/decision-log.md") || text::has_str(
        p.as_slice(),
        "/docs/archive/",
    )
}

fn read_targets<'a>(line: &'a [char]) -> (r: Vec<&'a [char]>)
    ensures
        text::views(r@) == link_targets(line@),
{
    let mut out: Vec<&'a [char]> = Vec::new();
    let mut rest: &'a [char] = line;
    assert(text::views(out@) + link_targets(line@) =~= link_targets(line@));
    loop
        invariant_except_break
            text::views(out@) + link_targets(rest@) == link_targets(line@),
        ensures
            text::views(out@) == link_targets(line@),
        decreases rest.len(),
    {
        proof {
            reveal_strlit("](");
            reveal_strlit(")");
            text::lemma_find(rest@, "]("@);
        }
        let after = match text::cut(rest, "](") {
            None => {
                assert(text::views(out@) + Seq::<Seq<char>>::empty() =~= text::views(out@));
                break;
            },
            Some((_, a)) => a,
        };
        proof {
            text::lemma_find(after@, ")"@);
        }
        match text::cut(after, ")") {
            None => {
                assert(text::views(out@) + Seq::<Seq<char>>::empty() =~= text::views(out@));
                break;
            },
            Some((t, tail)) => {
                proof {
                    assert(text::views(out@.push(t)) =~= text::views(out@).push(t@));
                    let x = link_targets(tail@);
                    assert(text::views(out@) + (seq![t@] + x) =~= text::views(out@).push(t@) + x);
                }
                out.push(t);
                rest = tail;
            },
        }
    }
    out
}

fn line_anchor(a: &[char]) -> (r: bool)
    ensures
        r == is_line_anchor(a@),
{
    if a.len() == 0 || a[0] != 'L' {
        return false;
    }
    let mut i: usize = 1;
    while i < a.len()
        invariant
            1 <= i <= a.len(),
            forall|j: int|
                1 <= j < i ==> text::is_digit(#[trigger] a@[j]) || a@[j] == '-' || a@[j] == 'L',
        decreases a.len() - i,
    {
        if !(text::digit(a[i]) || a[i] == '-' || a[i] == 'L') {
            assert(!(text::is_digit(a@[i as int]) || a@[i as int] == '-' || a@[i as int] == 'L'));
            return false;
        }
        i = i + 1;
    }
    true
}

/// References that have been read on line `n`.
spec fn numbered(rs: Seq<Ref>, n: nat) -> Seq<(nat, Ref)> {
    rs.map_values(|r: Ref| (n, r))
}

fn put(out: &mut Vec<Reference>, line: usize, kind: Kind, target: &[char], anchor: &[char])
    ensures
        says(final(out)@) == says(old(out)@).push(
            (line as nat, Ref { kind, target: target@, anchor: anchor@ }),
        ),
{
    let r = Reference {
        line,
        kind,
        target: text::string_of(target),
        anchor: text::string_of(anchor),
    };
    let ghost was = out@;
    out.push(r);
    assert(says(out@) =~= says(was).push(
        (line as nat, Ref { kind, target: target@, anchor: anchor@ }),
    ));
}

fn add_link(out: &mut Vec<Reference>, line: usize, t: &[char])
    ensures
        says(final(out)@) == says(old(out)@) + numbered(link_refs(t@), line as nat),
{
    proof {
        reveal_strlit("#");
    }
    let ghost start = says(out@);
    if text::has_str(t, "://") {
        assert(says(out@) =~= start + numbered(link_refs(t@), line as nat));
        return;
    }
    let p = text::pieces(t, "#");
    assert(text::views(p@)[0] == p[0]@);
    let file = p[0];
    let md = text::ends(file, ".md");
    let none = text::take(file, 0);
    assert(none@ =~= Seq::<char>::empty());
    match text::cut(t, "#") {
        Some((_, a)) => {
            if a.len() > 0 && !line_anchor(a) && (file.len() == 0 || md_extension(file)) {
                put(out, line, Kind::Heading, file, a);
            }
        },
        None => {},
    }
    if file.len() > 0 && md {
        put(out, line, Kind::Link, file, none);
    }
    assert(says(out@) =~= start + numbered(link_refs(t@), line as nat));
}

fn add_doc(out: &mut Vec<Reference>, line: usize, piece: &[char])
    ensures
        says(final(out)@) == (match doc_ref(piece@) {
            Some(r) => says(old(out)@).push((line as nat, r)),
            None => says(old(out)@),
        }),
{
    if !text::ends(piece, ".md") || text::has_str(piece, "*") || text::has_str(piece, " ") {
        return;
    }
    let none = text::take(piece, 0);
    assert(none@ =~= Seq::<char>::empty());
    if text::begins(piece, "docs/") {
        put(out, line, Kind::CitedPath, piece, none);
    } else if !text::has_str(piece, "/") {
        put(out, line, Kind::CitedName, piece, none);
    }
}

fn add_source(out: &mut Vec<Reference>, line: usize, piece: &[char])
    ensures
        says(final(out)@) == (match source_ref(piece@) {
            Some(r) => says(old(out)@).push((line as nat, r)),
            None => says(old(out)@),
        }),
{
    let none = text::take(piece, 0);
    assert(none@ =~= Seq::<char>::empty());
    if (text::begins(piece, "kernel/") || text::begins(piece, "userspace/") || text::begins(
        piece,
        "tools/",
    )) && (text::ends(piece, ".rs") || text::ends(piece, ".toml")) && !text::has_str(piece, " ")
        && !text::has_str(piece, "<") && !text::has_str(piece, ">") {
        put(out, line, Kind::Source, piece, none);
    }
}

fn add_line(out: &mut Vec<Reference>, n: usize, line: &[char], current: bool, record: bool)
    ensures
        says(final(out)@) == says(old(out)@) + numbered(
            line_refs(line@, current, record),
            n as nat,
        ),
{
    proof {
        reveal_strlit("`");
    }
    let c = docs_masked(line);
    let ts = read_targets(c.as_slice());
    let ghost start = says(out@);
    let ghost all = text::views(ts@);
    let mut i: usize = 0;
    assert(start + numbered(all_link_refs(all.take(0)), n as nat) =~= start);
    while i < ts.len()
        invariant
            i <= ts.len(),
            all == text::views(ts@),
            says(out@) == start + numbered(all_link_refs(all.take(i as int)), n as nat),
        decreases ts.len() - i,
    {
        assert(all.take(i + 1).drop_last() =~= all.take(i as int));
        assert(all.take(i + 1).last() == ts[i as int]@);
        add_link(out, n, ts[i]);
        i = i + 1;
        assert(says(out@) =~= start + numbered(all_link_refs(all.take(i as int)), n as nat));
    }
    assert(all.take(i as int) =~= all);
    let ghost links = all_link_refs(all);
    let allowed = text::has_str(line, "<!-- check-docs: allow-missing -->");
    let split = text::pieces(line, "`");
    let ps = text::odd(&split);
    let ghost pv = text::views(ps@);
    let ghost base = says(out@);
    if !allowed && !record {
        let mut k: usize = 0;
        assert(base + numbered(doc_refs(pv.take(0)), n as nat) =~= base);
        while k < ps.len()
            invariant
                k <= ps.len(),
                pv == text::views(ps@),
                says(out@) == base + numbered(doc_refs(pv.take(k as int)), n as nat),
            decreases ps.len() - k,
        {
            assert(pv.take(k + 1).drop_last() =~= pv.take(k as int));
            assert(pv.take(k + 1).last() == ps[k as int]@);
            add_doc(out, n, ps[k]);
            k = k + 1;
            assert(says(out@) =~= base + numbered(doc_refs(pv.take(k as int)), n as nat));
        }
        assert(pv.take(k as int) =~= pv);
    }
    let ghost cited = if allowed || record {
        Seq::empty()
    } else {
        doc_refs(pv)
    };
    assert(says(out@) =~= base + numbered(cited, n as nat));
    let ghost low = says(out@);
    if !allowed && current {
        let mut k: usize = 0;
        assert(low + numbered(source_refs(pv.take(0)), n as nat) =~= low);
        while k < ps.len()
            invariant
                k <= ps.len(),
                pv == text::views(ps@),
                says(out@) == low + numbered(source_refs(pv.take(k as int)), n as nat),
            decreases ps.len() - k,
        {
            assert(pv.take(k + 1).drop_last() =~= pv.take(k as int));
            assert(pv.take(k + 1).last() == ps[k as int]@);
            add_source(out, n, ps[k]);
            k = k + 1;
            assert(says(out@) =~= low + numbered(source_refs(pv.take(k as int)), n as nat));
        }
        assert(pv.take(k as int) =~= pv);
    }
    let ghost sources = if allowed || !current {
        Seq::empty()
    } else {
        source_refs(pv)
    };
    proof {
        assert(says(out@) =~= low + numbered(sources, n as nat));
        assert(line_refs(line@, current, record) == links + cited + sources);
        assert(says(out@) =~= start + numbered(links + cited + sources, n as nat));
    }
}

fn docs_masked(line: &[char]) -> (r: Vec<char>)
    ensures
        r@ == docs::masked(line@),
{
    let s = text::string_of(line);
    let m = docs::mask_code_spans(s.as_str());
    text::chars_of(m.as_str())
}

/// Everything that a document refers to, in order.
pub fn references(doc: &str, current: bool, record: bool) -> (r: Vec<Reference>)
    ensures
        says(r@) == refs(text::lines(doc@), text::lines(doc@).len() as int, current, record),
{
    let c = text::chars_of(doc);
    let ls = text::lines_of(c.as_slice());
    let ghost all = text::lines(doc@);
    let mut out: Vec<Reference> = Vec::new();
    let mut i: usize = 0;
    assert(text::views(ls@).len() == ls.len());
    assert(says(out@) =~= refs(all, 0, current, record));
    while i < ls.len()
        invariant
            i <= ls.len(),
            ls.len() == all.len(),
            all == text::views(ls@),
            says(out@) == refs(all, i as int, current, record),
        decreases ls.len() - i,
    {
        assert(all[i as int] == ls[i as int]@);
        add_line(&mut out, i + 1, ls[i], current, record);
        i = i + 1;
    }
    out
}

/// The first known anchor that begins as `anchor` does, up to its first hyphen.
pub open spec fn nearest(known: Seq<Seq<char>>, anchor: Seq<char>) -> Option<int>
    decreases known.len(),
{
    if known.len() == 0 {
        None
    } else {
        match nearest(known.drop_last(), anchor) {
            Some(i) => Some(i),
            None => if text::starts_with(known.last(), text::split(anchor, "-"@)[0]) {
                Some(known.len() - 1)
            } else {
                None
            },
        }
    }
}

/// What a heading link finds.
#[derive(Debug)]
pub enum Found {
    /// The heading.
    Yes,
    /// No such heading, but this anchor is near.
    Near(String),
    /// Nothing.
    No,
}

/// Looks an anchor up among those that a document offers.
pub fn look_up(known: &Vec<String>, anchor: &str) -> (r: Found)
    ensures
        ({
            let k = text::strs(known@);
            match r {
                Found::Yes => k.contains(anchor@),
                Found::Near(s) => !k.contains(anchor@) && nearest(k, anchor@) is Some && k[nearest(
                    k,
                    anchor@,
                )->0] == s@,
                Found::No => !k.contains(anchor@) && nearest(k, anchor@) is None,
            }
        }),
{
    proof {
        reveal_strlit("-");
    }
    let a = text::chars_of(anchor);
    let p = text::pieces(a.as_slice(), "-");
    assert(text::views(p@)[0] == p[0]@);
    let head = p[0];
    let ghost k = text::strs(known@);
    let mut near: Option<usize> = None;
    let mut i: usize = 0;
    while i < known.len()
        invariant
            i <= known.len(),
            k == text::strs(known@),
            a@ == anchor@,
            head@ == text::split(anchor@, "-"@)[0],
            forall|j: int| 0 <= j < i ==> #[trigger] k[j] != anchor@,
            match near {
                Some(n) => n < i && nearest(k.take(i as int), anchor@) == Some(n as int),
                None => nearest(k.take(i as int), anchor@) is None,
            },
        decreases known.len() - i,
    {
        assert(k.take(i + 1).drop_last() =~= k.take(i as int));
        assert(k.take(i + 1).last() == k[i as int]);
        let n = text::chars_of(known[i].as_str());
        assert(n@ == k[i as int]);
        if text::same(n.as_slice(), a.as_slice()) {
            assert(k.contains(anchor@));
            return Found::Yes;
        }
        if near.is_none() && text::stands_at(n.as_slice(), head, 0) {
            near = Some(i);
        }
        i = i + 1;
    }
    assert(k.take(i as int) =~= k);
    assert(!k.contains(anchor@));
    match near {
        Some(n) => {
            let s = text::chars_of(known[n].as_str());
            Found::Near(text::string_of(s.as_slice()))
        },
        None => Found::No,
    }
}

/// A line that states what is built: `status`, in any case, behind what dresses it up.
pub open spec fn states_status(line: Seq<char>) -> bool {
    let t = text::trim_start(
        text::trim_start_char(
            text::strip_all(text::trim_start_char(line, '#'), "> "@),
            '*',
        ),
    );
    text::starts_with(deferrals::small_text(t), "status"@)
}

/// Whether one of the first twenty lines states what is built.
pub fn has_status(doc: &str) -> (r: bool)
    ensures
        r == exists|i: int|
            0 <= i < text::lines(doc@).len() && i < 20 && states_status(
                #[trigger] text::lines(doc@)[i],
            ),
{
    proof {
        reveal_strlit("> ");
    }
    let c = text::chars_of(doc);
    let ls = text::lines_of(c.as_slice());
    let ghost all = text::lines(doc@);
    let mut i: usize = 0;
    assert(text::views(ls@).len() == ls.len());
    while i < ls.len() && i < 20
        invariant
            i <= ls.len(),
            i <= 20,
            ls.len() == all.len(),
            all == text::views(ls@),
            all == text::lines(doc@),
            "> "@.len() > 0,
            forall|k: int| 0 <= k < i ==> !states_status(#[trigger] all[k]),
        decreases ls.len() - i,
    {
        assert(all[i as int] == ls[i as int]@);
        let t = text::trimmed_start(
            text::trimmed_char(
                text::stripped_all(text::trimmed_char(ls[i], '#'), "> "),
                '*',
            ),
        );
        let low = deferrals::small_chars(t);
        if text::begins(low.as_slice(), "status") {
            assert(states_status(all[i as int]));
            return true;
        }
        i = i + 1;
    }
    false
}

/// A link to a document.
pub open spec fn link_to(file: Seq<char>) -> Ref {
    Ref { kind: Kind::Link, target: file, anchor: Seq::empty() }
}

/// A target without `#` is all file; of one with a `#` the file is what stands before the first.
proof fn lemma_target(file: Seq<char>, anchor: Seq<char>)
    requires
        text::lacks(file, '#'),
    ensures
        target_file(file) == file,
        text::split_once(file, "#"@) is None,
        target_file(file + "#"@ + anchor) == file,
        text::split_once(file + "#"@ + anchor, "#"@) == Some((file, anchor)),
{
    reveal_strlit("#");
    text::lemma_lacking(file, "#"@, 0);
    text::lemma_cut(file, "#"@, anchor);
}

/// A link to a Markdown document is read as a link to it, whether or not an anchor follows, and to
/// that document alone.
#[verifier::spinoff_prover]
#[verifier::rlimit(60)]
pub proof fn law_a_document_link_is_read(name: Seq<char>, anchor: Seq<char>)
    requires
        text::lacks(name, '#'),
        text::lacks(name, ':'),
        !text::contains(name + ".md"@ + "#"@ + anchor, "://"@),
    ensures
        ({
            let file = name + ".md"@;
            &&& link_refs(file) == seq![link_to(file)]
            &&& link_refs(file + "#"@ + anchor).contains(link_to(file))
            &&& forall|r: Ref|
                #[trigger] link_refs(file + "#"@ + anchor).contains(r) && r.kind is Link ==> r
                    == link_to(file)
        }),
{
    reveal_strlit(".md");
    reveal_strlit("://");
    let file = name + ".md"@;
    let t = file + "#"@ + anchor;
    assert(text::lacks(file, '#'));
    assert(text::lacks(file, ':'));
    text::lemma_lacking(file, "://"@, 0);
    text::lemma_stands(name, ".md"@, Seq::empty());
    lemma_target(file, anchor);
    assert(link_refs(file) =~= seq![link_to(file)]);
    let refs = link_refs(t);
    assert(refs.last() == link_to(file));
    assert(refs[refs.len() - 1] == link_to(file));
}

/// A link to a heading is read with its anchor: of another Markdown document, or of the document
/// itself. An anchor that names lines, and one of another kind of file, is no heading.
#[verifier::spinoff_prover]
#[verifier::rlimit(60)]
pub proof fn law_a_heading_link_is_read(name: Seq<char>, anchor: Seq<char>)
    requires
        name.len() > 0,
        name.last() != '/',
        text::lacks(name, '#'),
        anchor.len() > 0,
        !text::contains(name + ".md"@ + "#"@ + anchor, "://"@),
        !text::contains("#"@ + anchor, "://"@),
    ensures
        ({
            let file = name + ".md"@;
            let heading = Ref { kind: Kind::Heading, target: file, anchor };
            let own = Ref { kind: Kind::Heading, target: Seq::empty(), anchor };
            &&& anchor[0] != 'L' ==> link_refs(file + "#"@ + anchor).contains(heading)
            &&& anchor[0] != 'L' ==> link_refs("#"@ + anchor) == seq![own]
            &&& anchor[0] == 'L' && (forall|i: int|
                1 <= i < anchor.len() ==> text::is_digit(#[trigger] anchor[i])) ==> forall|r: Ref|
                #[trigger]
                link_refs(file + "#"@ + anchor).contains(r) ==> !(r.kind is Heading)
        }),
{
    reveal_strlit(".md");
    reveal_strlit("/.md");
    let file = name + ".md"@;
    assert(text::lacks(file, '#'));
    text::lemma_stands(name, ".md"@, Seq::empty());
    lemma_target(file, anchor);
    let none = Seq::<char>::empty();
    lemma_target(none, anchor);
    assert(none + "#"@ + anchor =~= "#"@ + anchor);
    let n = file.len() as int;
    assert(file[n - 2] == 'm' && file.last() == 'd');
    assert(without_tail(file) == file);
    assert(file != ".md"@) by {
        assert(file.len() > 3);
    }
    assert(!text::ends_with(file, "/.md"@)) by {
        if text::ends_with(file, "/.md"@) {
            assert(file.subrange(n - 4, n)[0] == file[n - 4]);
            assert(file[n - 4] == name.last());
        }
    }
    assert(has_md_extension(file));
    if anchor[0] != 'L' {
        let refs = link_refs(file + "#"@ + anchor);
        assert(refs[0] == Ref { kind: Kind::Heading, target: file, anchor });
        assert(link_refs("#"@ + anchor) =~= seq![
            Ref { kind: Kind::Heading, target: none, anchor },
        ]);
    } else if forall|i: int| 1 <= i < anchor.len() ==> text::is_digit(#[trigger] anchor[i]) {
        assert(is_line_anchor(anchor));
        let refs = link_refs(file + "#"@ + anchor);
        assert(refs =~= seq![link_to(file)]);
    }
}

proof fn lemma_all_links(ts: Seq<Seq<char>>, i: int, r: Ref)
    requires
        0 <= i < ts.len(),
        link_refs(ts[i]).contains(r),
    ensures
        all_link_refs(ts).contains(r),
    decreases ts.len(),
{
    let front = all_link_refs(ts.drop_last());
    let here = link_refs(ts.last());
    if i == ts.len() - 1 {
        let k = choose|k: int| 0 <= k < here.len() && here[k] == r;
        assert((front + here)[front.len() + k] == r);
    } else {
        assert(ts.drop_last()[i] == ts[i]);
        lemma_all_links(ts.drop_last(), i, r);
        let k = choose|k: int| 0 <= k < front.len() && front[k] == r;
        assert((front + here)[k] == r);
    }
}

/// A line without inline code is read as it stands.
proof fn lemma_unmasked(line: Seq<char>)
    requires
        text::lacks(line, '`'),
    ensures
        docs::masked(line) == line,
{
    text::lemma_lacking(line, seq!['`'], 0);
}

/// A link on a line without inline code is read, whatever the line's document is and whatever else
/// is on the line: `[words](name.md)` and `[words](name.md#anchor)` alike.
#[verifier::spinoff_prover]
#[verifier::rlimit(60)]
pub proof fn law_a_link_on_a_line_is_read(
    words: Seq<char>,
    name: Seq<char>,
    anchor: Seq<char>,
    after: Seq<char>,
    current: bool,
    record: bool,
)
    requires
        text::lacks(words, ']'),
        text::lacks(words, '`'),
        text::lacks(name, '`'),
        text::lacks(name, ')'),
        text::lacks(name, '#'),
        text::lacks(name, ':'),
        text::lacks(anchor, '`'),
        text::lacks(anchor, ')'),
        text::lacks(after, '`'),
        !text::contains(name + ".md"@ + "#"@ + anchor, "://"@),
    ensures
        ({
            let file = name + ".md"@;
            &&& line_refs(words + "]("@ + file + ")"@ + after, current, record).contains(
                link_to(file),
            )
            &&& line_refs(
                words + "]("@ + (file + "#"@ + anchor) + ")"@ + after,
                current,
                record,
            ).contains(link_to(file))
        }),
{
    let file = name + ".md"@;
    law_a_document_link_is_read(name, anchor);
    reveal_strlit(".md");
    reveal_strlit("#");
    assert(link_refs(file)[0] == link_to(file));
    lemma_link_on_line(words, file, after, current, record, link_to(file));
    lemma_link_on_line(words, file + "#"@ + anchor, after, current, record, link_to(file));
}

#[verifier::spinoff_prover]
#[verifier::rlimit(60)]
proof fn lemma_link_on_line(
    words: Seq<char>,
    t: Seq<char>,
    after: Seq<char>,
    current: bool,
    record: bool,
    r: Ref,
)
    requires
        text::lacks(words, ']'),
        text::lacks(words, '`'),
        text::lacks(t, '`'),
        text::lacks(t, ')'),
        text::lacks(after, '`'),
        link_refs(t).contains(r),
    ensures
        line_refs(words + "]("@ + t + ")"@ + after, current, record).contains(r),
{
    reveal_strlit("](");
    reveal_strlit(")");
    let line = words + "]("@ + t + ")"@ + after;
    let tail = t + ")"@ + after;
    assert(line =~= words + "]("@ + tail);
    assert(text::lacks(line, '`'));
    lemma_unmasked(line);
    text::lemma_cut(words, "]("@, tail);
    text::lemma_cut(t, ")"@, after);
    assert(line.skip(words.len() as int + 2) =~= tail);
    assert(tail.take(t.len() as int) =~= t);
    let ts = link_targets(line);
    assert(ts[0] == t);
    lemma_all_links(ts, 0, r);
    let links = all_link_refs(ts);
    let k = choose|k: int| 0 <= k < links.len() && links[k] == r;
    assert(line_refs(line, current, record)[k] == r);
}

/// A document that is cited by its path from the root, or by its bare name, is read, unless the text
/// names a family of documents or is no path; so is a source file by its path.
#[verifier::spinoff_prover]
#[verifier::rlimit(60)]
pub proof fn law_a_citation_is_read(name: Seq<char>)
    requires
        text::lacks(name, '*'),
        text::lacks(name, ' '),
        text::lacks(name, '<'),
        text::lacks(name, '>'),
    ensures
        doc_ref("docs/"@ + name + ".md"@) == Some(
            Ref { kind: Kind::CitedPath, target: "docs/"@ + name + ".md"@, anchor: Seq::empty() },
        ),
        text::lacks(name, '/') ==> doc_ref(name + ".md"@) == Some(
            Ref { kind: Kind::CitedName, target: name + ".md"@, anchor: Seq::empty() },
        ),
        source_ref("kernel/"@ + name + ".rs"@) == Some(
            Ref { kind: Kind::Source, target: "kernel/"@ + name + ".rs"@, anchor: Seq::empty() },
        ),
        source_ref("userspace/"@ + name + ".toml"@) == Some(
            Ref {
                kind: Kind::Source,
                target: "userspace/"@ + name + ".toml"@,
                anchor: Seq::empty(),
            },
        ),
        source_ref("tools/"@ + name + ".rs"@) == Some(
            Ref { kind: Kind::Source, target: "tools/"@ + name + ".rs"@, anchor: Seq::empty() },
        ),
        forall|p: Seq<char>|
            text::contains(p, " "@) || text::contains(p, "*"@) ==> #[trigger] doc_ref(p) is None,
        forall|p: Seq<char>|
            text::contains(p, " "@) || text::contains(p, "<"@) || text::contains(p, ">"@)
                ==> #[trigger] source_ref(p) is None,
{
    reveal_strlit("docs/");
    reveal_strlit(".md");
    reveal_strlit("*");
    reveal_strlit(" ");
    reveal_strlit("/");
    reveal_strlit("<");
    reveal_strlit(">");
    reveal_strlit("kernel/");
    reveal_strlit("userspace/");
    reveal_strlit("tools/");
    reveal_strlit(".rs");
    reveal_strlit(".toml");
    let none = Seq::<char>::empty();
    let a = "docs/"@ + name + ".md"@;
    lemma_piece("docs/"@, name, ".md"@);
    lemma_piece(none, name, ".md"@);
    assert(none + name + ".md"@ =~= name + ".md"@);
    if text::lacks(name, '/') {
        let b = name + ".md"@;
        assert(text::lacks(b, '/'));
        text::lemma_lacking(b, "/"@, 0);
        text::lemma_lacking(b, "docs/"@, 4);
        assert(!text::starts_with(b, "docs/"@));
    }
    lemma_piece("kernel/"@, name, ".rs"@);
    lemma_piece("userspace/"@, name, ".toml"@);
    lemma_piece("tools/"@, name, ".rs"@);
}

#[verifier::spinoff_prover]
#[verifier::rlimit(60)]
proof fn lemma_piece(front: Seq<char>, name: Seq<char>, tail: Seq<char>)
    requires
        text::lacks(front, '*') && text::lacks(name, '*') && text::lacks(tail, '*'),
        text::lacks(front, ' ') && text::lacks(name, ' ') && text::lacks(tail, ' '),
        text::lacks(front, '<') && text::lacks(name, '<') && text::lacks(tail, '<'),
        text::lacks(front, '>') && text::lacks(name, '>') && text::lacks(tail, '>'),
    ensures
        ({
            let p = front + name + tail;
            &&& text::starts_with(p, front)
            &&& text::ends_with(p, tail)
            &&& !text::contains(p, "*"@)
            &&& !text::contains(p, " "@)
            &&& !text::contains(p, "<"@)
            &&& !text::contains(p, ">"@)
        }),
{
    reveal_strlit("*");
    reveal_strlit(" ");
    reveal_strlit("<");
    reveal_strlit(">");
    let p = front + name + tail;
    text::lemma_stands(Seq::empty(), front, name + tail);
    assert(p =~= front + (name + tail));
    text::lemma_stands(front + name, tail, Seq::empty());
    assert(text::lacks(p, '*') && text::lacks(p, ' ') && text::lacks(p, '<') && text::lacks(p, '>'));
    text::lemma_lacking(p, "*"@, 0);
    text::lemma_lacking(p, " "@, 0);
    text::lemma_lacking(p, "<"@, 0);
    text::lemma_lacking(p, ">"@, 0);
}

proof fn lemma_link_kinds(ts: Seq<Seq<char>>, r: Ref)
    requires
        all_link_refs(ts).contains(r),
    ensures
        r.kind is Heading || r.kind is Link,
    decreases ts.len(),
{
    if ts.len() > 0 {
        let front = all_link_refs(ts.drop_last());
        let here = link_refs(ts.last());
        let k = choose|k: int| 0 <= k < (front + here).len() && (front + here)[k] == r;
        if k < front.len() {
            assert(front[k] == r);
            lemma_link_kinds(ts.drop_last(), r);
        } else {
            assert(here[k - front.len()] == r);
        }
    }
}

proof fn lemma_doc_refs(ps: Seq<Seq<char>>, r: Ref)
    ensures
        doc_refs(ps).contains(r) ==> r.kind is CitedPath || r.kind is CitedName,
        doc_refs(ps).contains(r) <==> exists|i: int|
            0 <= i < ps.len() && doc_ref(#[trigger] ps[i]) == Some(r),
    decreases ps.len(),
{
    if ps.len() > 0 {
        let front = doc_refs(ps.drop_last());
        lemma_doc_refs(ps.drop_last(), r);
        assert(ps.last() == ps[ps.len() - 1]);
        if doc_refs(ps).contains(r) {
            let k = choose|k: int| 0 <= k < doc_refs(ps).len() && doc_refs(ps)[k] == r;
            if k < front.len() {
                assert(front[k] == r);
                let i = choose|i: int|
                    0 <= i < ps.drop_last().len() && doc_ref(#[trigger] ps.drop_last()[i]) == Some(r);
                assert(doc_ref(ps[i]) == Some(r));
            }
        }
        if exists|i: int| 0 <= i < ps.len() && doc_ref(#[trigger] ps[i]) == Some(r) {
            let i = choose|i: int| 0 <= i < ps.len() && doc_ref(#[trigger] ps[i]) == Some(r);
            if i < ps.len() - 1 {
                assert(doc_ref(ps.drop_last()[i]) == Some(r));
                let k = choose|k: int| 0 <= k < front.len() && front[k] == r;
                assert(doc_refs(ps)[k] == r);
            } else {
                assert(doc_refs(ps).last() == r);
            }
        }
    }
}

proof fn lemma_source_refs(ps: Seq<Seq<char>>, r: Ref)
    ensures
        source_refs(ps).contains(r) ==> r.kind is Source,
        source_refs(ps).contains(r) <==> exists|i: int|
            0 <= i < ps.len() && source_ref(#[trigger] ps[i]) == Some(r),
    decreases ps.len(),
{
    if ps.len() > 0 {
        let front = source_refs(ps.drop_last());
        lemma_source_refs(ps.drop_last(), r);
        assert(ps.last() == ps[ps.len() - 1]);
        if source_refs(ps).contains(r) {
            let k = choose|k: int| 0 <= k < source_refs(ps).len() && source_refs(ps)[k] == r;
            if k < front.len() {
                assert(front[k] == r);
                let i = choose|i: int|
                    0 <= i < ps.drop_last().len() && source_ref(#[trigger] ps.drop_last()[i])
                        == Some(r);
                assert(source_ref(ps[i]) == Some(r));
            }
        }
        if exists|i: int| 0 <= i < ps.len() && source_ref(#[trigger] ps[i]) == Some(r) {
            let i = choose|i: int| 0 <= i < ps.len() && source_ref(#[trigger] ps[i]) == Some(r);
            if i < ps.len() - 1 {
                assert(source_ref(ps.drop_last()[i]) == Some(r));
                let k = choose|k: int| 0 <= k < front.len() && front[k] == r;
                assert(source_refs(ps)[k] == r);
            } else {
                assert(source_refs(ps).last() == r);
            }
        }
    }
}

proof fn lemma_three(a: Seq<Ref>, b: Seq<Ref>, c: Seq<Ref>, r: Ref)
    ensures
        (a + b + c).contains(r) <==> a.contains(r) || b.contains(r) || c.contains(r),
{
    let all = a + b + c;
    if all.contains(r) {
        let k = choose|k: int| 0 <= k < all.len() && all[k] == r;
        if k < a.len() {
            assert(a[k] == r);
        } else if k < a.len() + b.len() {
            assert(b[k - a.len()] == r);
        } else {
            assert(c[k - a.len() - b.len()] == r);
        }
    }
    if a.contains(r) {
        let k = choose|k: int| 0 <= k < a.len() && a[k] == r;
        assert(all[k] == r);
    }
    if b.contains(r) {
        let k = choose|k: int| 0 <= k < b.len() && b[k] == r;
        assert(all[a.len() + k] == r);
    }
    if c.contains(r) {
        let k = choose|k: int| 0 <= k < c.len() && c[k] == r;
        assert(all[a.len() + b.len() + k] == r);
    }
}

/// What is exempt and what is not: a marked line cites nothing, a record cites no document, only what
/// is current cites sources; and links are read of every line alike.
#[verifier::spinoff_prover]
#[verifier::rlimit(60)]
pub proof fn law_exemptions_leave_links_alone(
    line: Seq<char>,
    current: bool,
    record: bool,
    r: Ref,
)
    ensures
        r.kind is Link || r.kind is Heading ==> (line_refs(line, current, record).contains(r)
            <==> line_refs(line, true, false).contains(r)),
        line_refs(line, current, record).contains(r) && (r.kind is CitedPath || r.kind is CitedName)
            ==> !record && !text::contains(line, "<!-- check-docs: allow-missing -->"@),
        line_refs(line, current, record).contains(r) && r.kind is Source ==> current
            && !text::contains(line, "<!-- check-docs: allow-missing -->"@),
{
    let ps = code_pieces(line);
    let ts = link_targets(docs::masked(line));
    let links = all_link_refs(ts);
    let allowed = text::contains(line, allowance());
    let none = Seq::<Ref>::empty();
    let cited = if allowed || record {
        none
    } else {
        doc_refs(ps)
    };
    let sources = if allowed || !current {
        none
    } else {
        source_refs(ps)
    };
    lemma_three(links, cited, sources, r);
    lemma_three(
        links,
        if allowed {
            none
        } else {
            doc_refs(ps)
        },
        if allowed {
            none
        } else {
            source_refs(ps)
        },
        r,
    );
    lemma_doc_refs(ps, r);
    lemma_source_refs(ps, r);
    if links.contains(r) {
        lemma_link_kinds(ts, r);
    }
}

/// Inline code on a line that is not marked is read for what it cites, by each kind of document that
/// is checked for it.
#[verifier::spinoff_prover]
#[verifier::rlimit(60)]
pub proof fn law_inline_code_is_read(
    before: Seq<char>,
    piece: Seq<char>,
    after: Seq<char>,
    current: bool,
    record: bool,
)
    requires
        text::lacks(before, '`'),
        text::lacks(piece, '`'),
        !text::contains(
            before + "`"@ + piece + "`"@ + after,
            "<!-- check-docs: allow-missing -->"@,
        ),
    ensures
        ({
            let refs = line_refs(before + "`"@ + piece + "`"@ + after, current, record);
            &&& doc_ref(piece) matches Some(r) ==> !record ==> refs.contains(r)
            &&& source_ref(piece) matches Some(r) ==> current ==> refs.contains(r)
        }),
{
    reveal_strlit("`");
    let line = before + "`"@ + piece + "`"@ + after;
    let tail = piece + "`"@ + after;
    assert(line =~= before + "`"@ + tail);
    text::lemma_cut(before, "`"@, tail);
    text::lemma_cut(piece, "`"@, after);
    let p = text::split(line, "`"@);
    let ps = code_pieces(line);
    assert(p[1] == piece);
    assert(ps[0] == piece);
    let links = all_link_refs(link_targets(docs::masked(line)));
    let none = Seq::<Ref>::empty();
    let cited = if record {
        none
    } else {
        doc_refs(ps)
    };
    let sources = if !current {
        none
    } else {
        source_refs(ps)
    };
    assert(line_refs(line, current, record) == links + cited + sources);
    if doc_ref(piece) is Some {
        let r = doc_ref(piece)->0;
        lemma_doc_refs(ps, r);
        lemma_three(links, cited, sources, r);
    }
    if source_ref(piece) is Some {
        let r = source_ref(piece)->0;
        lemma_source_refs(ps, r);
        lemma_three(links, cited, sources, r);
    }
}

/// The references of a document are those of its lines, each under the number of its line.
#[verifier::spinoff_prover]
#[verifier::rlimit(60)]
pub proof fn law_references_are_numbered(
    ls: Seq<Seq<char>>,
    n: int,
    current: bool,
    record: bool,
    k: nat,
    r: Ref,
)
    requires
        0 <= n <= ls.len(),
    ensures
        refs(ls, n, current, record).contains((k, r)) <==> 1 <= k <= n && line_refs(
            ls[k - 1],
            current,
            record,
        ).contains(r),
    decreases n,
{
    if n > 0 {
        law_references_are_numbered(ls, n - 1, current, record, k, r);
        let front = refs(ls, n - 1, current, record);
        let mine = line_refs(ls[n - 1], current, record);
        let here = mine.map_values(|r: Ref| (n as nat, r));
        let all = front + here;
        if all.contains((k, r)) {
            let j = choose|j: int| 0 <= j < all.len() && all[j] == (k, r);
            if j < front.len() {
                assert(front[j] == (k, r));
            } else {
                assert(here[j - front.len()] == (k, r));
                assert(mine[j - front.len()] == r);
            }
        }
        if front.contains((k, r)) {
            let j = choose|j: int| 0 <= j < front.len() && front[j] == (k, r);
            assert(all[j] == (k, r));
        }
        if k == n && mine.contains(r) {
            let j = choose|j: int| 0 <= j < mine.len() && mine[j] == r;
            assert(here[j] == (k, r));
            assert(all[front.len() + j] == (k, r));
        }
    }
}

/// The documents that describe how the system is are those below four directories, and the records
/// are the decision log and what is archived, on either kind of path.
#[verifier::spinoff_prover]
#[verifier::rlimit(60)]
pub proof fn law_documents_are_told_by_their_directory(a: Seq<char>, b: Seq<char>)
    requires
        text::lacks(a, '\\'),
        text::lacks(b, '\\'),
    ensures
        is_current(a + "/docs/spec/"@ + b),
        is_current(a + "/docs/reference/"@ + b),
        is_current(a + "/docs/architecture/"@ + b),
        is_current(a + "/docs/conventions/"@ + b),
        is_archive(a + "/docs/archive/"@ + b),
        is_archive(a + "/docs/decision-log.md"@),
{
    assert(text::lacks("/docs/spec/"@, '\\')) by {
        reveal_strlit("/docs/spec/");
    }
    assert(text::lacks("/docs/reference/"@, '\\')) by {
        reveal_strlit("/docs/reference/");
    }
    assert(text::lacks("/docs/architecture/"@, '\\')) by {
        reveal_strlit("/docs/architecture/");
    }
    assert(text::lacks("/docs/conventions/"@, '\\')) by {
        reveal_strlit("/docs/conventions/");
    }
    assert(text::lacks("/docs/archive/"@, '\\')) by {
        reveal_strlit("/docs/archive/");
    }
    assert(text::lacks("/docs/decision-log.md"@, '\\')) by {
        reveal_strlit("/docs/decision-log.md");
    }
    lemma_plain_path(a, "/docs/spec/"@, b);
    lemma_plain_path(a, "/docs/reference/"@, b);
    lemma_plain_path(a, "/docs/architecture/"@, b);
    lemma_plain_path(a, "/docs/conventions/"@, b);
    lemma_plain_path(a, "/docs/archive/"@, b);
    lemma_plain_path(a, "/docs/decision-log.md"@, Seq::empty());
    assert(a + "/docs/decision-log.md"@ + Seq::<char>::empty() =~= a + "/docs/decision-log.md"@);
}

proof fn lemma_plain_path(a: Seq<char>, d: Seq<char>, b: Seq<char>)
    requires
        text::lacks(a, '\\') && text::lacks(d, '\\') && text::lacks(b, '\\'),
    ensures
        text::replace(a + d + b, "\\"@, "/"@) == a + d + b,
        text::contains(a + d + b, d),
        text::ends_with(a + d, d),
{
    reveal_strlit("\\");
    let p = a + d + b;
    assert(text::lacks(p, '\\'));
    text::lemma_lacking(p, "\\"@, 0);
    text::lemma_stands(a, d, b);
    assert(text::join(seq![p], "/"@) =~= p);
}

/// A line that begins with `Status`, in any case and behind any heading marks, states it.
#[verifier::spinoff_prover]
#[verifier::rlimit(60)]
pub proof fn law_a_status_line_is_seen(rest: Seq<char>)
    ensures
        states_status("Status"@ + rest),
        states_status("status"@ + rest),
        states_status("STATUS"@ + rest),
        states_status("# Status"@ + rest),
        states_status("> **Status"@ + rest),
{
    reveal_strlit("status");
    reveal_strlit("Status");
    reveal_strlit("STATUS");
    reveal_strlit("# Status");
    reveal_strlit("> **Status");
    reveal_strlit("> ");
    reveal_with_fuel(text::trim_start_char, 4);
    reveal_with_fuel(text::strip_all, 3);
    reveal_with_fuel(text::trim_start, 3);
    let word = "Status"@ + rest;
    let low = deferrals::small_text(word);
    lemma_status(word, rest);
    lemma_status("status"@ + rest, rest);
    lemma_status("STATUS"@ + rest, rest);
    let h = "# Status"@ + rest;
    assert(h.skip(1)[0] == ' ');
    assert(h.skip(1).skip(1) =~= word);
    assert(!text::starts_with(h.skip(1), "> "@)) by {
        if text::starts_with(h.skip(1), "> "@) {
            assert(h.skip(1).subrange(0, 2)[0] == '>');
        }
    }
    let q = "> **Status"@ + rest;
    assert(q.subrange(0, 2) =~= "> "@);
    let q2 = q.skip(2);
    assert(!text::starts_with(q2, "> "@)) by {
        if text::starts_with(q2, "> "@) {
            assert(q2.subrange(0, 2)[0] == '>');
        }
    }
    assert(q2.skip(1).skip(1) =~= word);
}

proof fn lemma_status(word: Seq<char>, rest: Seq<char>)
    requires
        word == "Status"@ + rest || word == "status"@ + rest || word == "STATUS"@ + rest,
    ensures
        states_status(word),
        text::starts_with(deferrals::small_text(word), "status"@),
        !text::starts_with(word, "> "@),
{
    reveal_strlit("status");
    reveal_strlit("Status");
    reveal_strlit("STATUS");
    reveal_strlit("> ");
    if text::starts_with(word, "> "@) {
        assert(word.subrange(0, 2)[0] == '>');
    }
    let low = deferrals::small_text(word);
    assert(low.subrange(0, 6) =~= "status"@);
}

/// What a piece of inline code cites is the piece itself, and of the shape that its kind has: a Markdown
/// file below the documents or a bare name, and a source or manifest below one of three directories.
#[verifier::spinoff_prover]
#[verifier::rlimit(60)]
pub proof fn law_a_citation_has_its_shape(piece: Seq<char>)
    ensures
        doc_ref(piece) matches Some(r) ==> {
            &&& r.target == piece && r.anchor.len() == 0
            &&& text::ends_with(piece, ".md"@)
            &&& r.kind is CitedPath <==> text::starts_with(piece, "docs/"@)
            &&& r.kind is CitedName ==> !text::contains(piece, "/"@)
            &&& r.kind is CitedPath || r.kind is CitedName
        },
        source_ref(piece) matches Some(r) ==> {
            &&& r.target == piece && r.anchor.len() == 0 && r.kind is Source
            &&& text::starts_with(piece, "kernel/"@) || text::starts_with(piece, "userspace/"@)
                || text::starts_with(piece, "tools/"@)
            &&& text::ends_with(piece, ".rs"@) || text::ends_with(piece, ".toml"@)
        },
{
}

/// What a link refers to lies in the project: nothing is read of an address, a link's document is what
/// stands before the number sign and ends as Markdown does, and a heading's anchor is what follows it.
#[verifier::spinoff_prover]
#[verifier::rlimit(60)]
pub proof fn law_a_link_has_its_shape(t: Seq<char>, r: Ref)
    requires
        link_refs(t).contains(r),
    ensures
        !text::contains(t, "://"@),
        r.target == text::split(t, "#"@)[0],
        r.kind is Link || r.kind is Heading,
        r.kind is Link ==> text::ends_with(r.target, ".md"@) && r.anchor.len() == 0,
        r.kind is Heading ==> r.anchor.len() > 0 && (text::split_once(t, "#"@) matches Some(p)
            && r.anchor == p.1),
        r.kind is Heading && r.target.len() > 0 ==> has_md_extension(r.target),
{
    let k = link_refs(t).index_of(r);
    assert(link_refs(t)[k] == r);
}

/// A path without backslashes is current exactly where it lies below one of four directories, and
/// archived exactly where it is the decision log or lies in the archive.
#[verifier::spinoff_prover]
#[verifier::rlimit(60)]
pub proof fn law_only_four_directories_are_current(path: Seq<char>)
    requires
        text::lacks(path, '\\'),
    ensures
        is_current(path) <==> text::contains(path, "/docs/spec/"@) || text::contains(
            path,
            "/docs/reference/"@,
        ) || text::contains(path, "/docs/architecture/"@) || text::contains(
            path,
            "/docs/conventions/"@,
        ),
        is_archive(path) <==> text::ends_with(path, "/docs/decision-log.md"@) || text::contains(
            path,
            "/docs/archive/"@,
        ),
{
    let none = Seq::<char>::empty();
    lemma_plain_path(path, none, none);
    assert(path + none + none =~= path);
}

/// What is offered for an anchor that is missing is the first known one that begins with its first
/// word, and nothing where none does.
#[verifier::spinoff_prover]
#[verifier::rlimit(60)]
pub proof fn law_the_first_likely_anchor_is_offered(known: Seq<Seq<char>>, anchor: Seq<char>)
    ensures
        ({
            let word = text::split(anchor, "-"@)[0];
            match nearest(known, anchor) {
                Some(i) => 0 <= i < known.len() && text::starts_with(known[i], word) && forall|j: int|
                    0 <= j < i ==> !text::starts_with(#[trigger] known[j], word),
                None => forall|j: int| 0 <= j < known.len() ==> !text::starts_with(
                    #[trigger] known[j],
                    word,
                ),
            }
        }),
    decreases known.len(),
{
    if known.len() > 0 {
        let front = known.drop_last();
        law_the_first_likely_anchor_is_offered(front, anchor);
        assert forall|j: int| 0 <= j < front.len() implies front[j] == #[trigger] known[j] by {}
        assert(known[known.len() - 1] == known.last());
    }
}

/// A line that begins with another letter states no status.
#[verifier::spinoff_prover]
#[verifier::rlimit(60)]
pub proof fn law_another_word_states_nothing(line: Seq<char>)
    requires
        line.len() > 0,
        text::is_alnum(line[0]),
        line[0] != 's',
        line[0] != 'S',
    ensures
        !states_status(line),
{
    reveal_strlit("> ");
    assert("status"@.len() == 6 && "status"@[0] == 's') by {
        reveal_strlit("status");
    }
    assert(text::trim_start_char(line, '#') == line);
    assert(!text::starts_with(line, "> "@)) by {
        if text::starts_with(line, "> "@) {
            assert(line.take(2)[0] == line[0]);
        }
    }
    assert(text::strip_all(line, "> "@) == line);
    assert(text::trim_start_char(line, '*') == line);
    assert(text::trim_start(line) == line);
    let t = deferrals::small_text(line);
    if text::starts_with(t, "status"@) {
        assert(t.take(6)[0] == t[0]);
        assert(t[0] == deferrals::small(line[0]));
    }
}

} // verus!
