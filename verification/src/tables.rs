//! The numeric tables of the documentation, against the kernel's source.

use vstd::prelude::*;

use crate::abi;
use crate::deferrals;
use crate::number;
use crate::references;
use crate::table;
use crate::text;

verus! {

/// A row: a number and the name it has.
#[derive(Debug)]
pub struct Row {
    pub number: i64,
    pub name: String,
}

impl View for Row {
    type V = (i64, Seq<char>);

    open spec fn view(&self) -> (i64, Seq<char>) {
        (self.number, self.name@)
    }
}

/// What the rows hold.
pub open spec fn rows(v: Seq<Row>) -> Seq<(i64, Seq<char>)> {
    v.map_values(|r: Row| r@)
}

/// The number that a literal stands for: decimal, or hexadecimal with underscores behind `0x`; a
/// tail of `;` and `,` is passed over.
pub open spec fn num_literal(s: Seq<char>) -> Option<i64> {
    let t = text::trim(abi::trim_tail(text::trim(s)));
    match text::strip_prefix(t, "0x"@) {
        Some(hex) => number::i64_of(abi::without_underscores(hex), 16),
        None => number::i64_of(t, 10),
    }
}

fn read_num(s: &[char]) -> (r: Option<i64>)
    ensures
        r == num_literal(s@),
{
    let t = text::trimmed(abi::tail_trimmed(text::trimmed(s)));
    match text::after_prefix(t, "0x") {
        Some(hex) => {
            let h = abi::underscores_removed(hex);
            number::parse_i64(h.as_slice(), 16)
        },
        None => number::parse_i64(t, 10),
    }
}

/// A line declares a system call.
pub open spec fn declares_call(line: Seq<char>) -> bool {
    text::starts_with(text::trim(line), "pub const SYS_"@)
}

/// The row of a declared system call, where its number can be read.
pub open spec fn call_row(line: Seq<char>) -> Option<(i64, Seq<char>)> {
    match text::strip_prefix(text::trim(line), "pub const SYS_"@) {
        None => None,
        Some(rest) => match text::split_once(rest, ": u64 = "@) {
            None => None,
            Some((name, tail)) => match num_literal(tail) {
                Some(n) => Some((n, "sys_"@ + deferrals::small_text(name))),
                None => None,
            },
        },
    }
}

/// A name of identifier characters.
pub open spec fn is_name(s: Seq<char>) -> bool {
    s.len() > 0 && forall|i: int| 0 <= i < s.len() ==> text::is_ident(#[trigger] s[i])
}

/// The row of an error code's variant.
pub open spec fn error_row(line: Seq<char>) -> Option<(i64, Seq<char>)> {
    match text::split_once(text::trim(line), " = "@) {
        None => None,
        Some((name, tail)) => if !is_name(name) {
            None
        } else {
            match number::i64_of(text::trim(text::trim_end_char(tail, ',')), 10) {
                Some(n) => Some((n, name)),
                None => None,
            }
        },
    }
}

/// The body of the error enum: up to the brace that closes it.
pub open spec fn error_body(source: Seq<char>) -> Seq<char> {
    match text::find(source, "enum KError"@) {
        None => Seq::empty(),
        Some(i) => match text::split_once(source.skip(i), "\n}"@) {
            Some((body, _)) => body,
            None => source.skip(i),
        },
    }
}

/// The name of a system call that a piece of inline code spells with its parameters.
pub open spec fn call_name(cell: Seq<char>) -> Option<Seq<char>> {
    match text::strip_prefix(cell, "sys_"@) {
        None => None,
        Some(rest) => match text::split_once(rest, "("@) {
            None => None,
            Some((n, _)) => Some("sys_"@ + n),
        },
    }
}

/// The first name among the cells.
pub open spec fn first_name(cells: Seq<Seq<char>>) -> Option<Seq<char>>
    decreases cells.len(),
{
    if cells.len() == 0 {
        None
    } else {
        match call_name(cells[0]) {
            Some(n) => Some(n),
            None => first_name(cells.skip(1)),
        }
    }
}

/// The number in the first cell that begins as a hexadecimal one.
pub open spec fn first_number(cells: Seq<Seq<char>>) -> Option<i64>
    decreases cells.len(),
{
    if cells.len() == 0 {
        None
    } else if text::starts_with(cells[0], "0x"@) {
        num_literal(cells[0])
    } else {
        first_number(cells.skip(1))
    }
}

/// The row of a bullet that documents a system call.
pub open spec fn bullet_row(t: Seq<char>) -> Option<(i64, Seq<char>)> {
    let cells = references::code_pieces(t);
    match (first_name(cells), first_number(cells)) {
        (Some(name), Some(n)) => Some((n, name)),
        _ => None,
    }
}

/// A cell without its backticks.
pub open spec fn unquoted(cell: Seq<char>) -> Seq<char> {
    text::trim(text::trim_end_char(text::trim_start_char(text::trim(cell), '`'), '`'))
}

/// The row of a table's line.
pub open spec fn table_row(t: Seq<char>) -> Option<(i64, Seq<char>)> {
    let cells = text::split(t, "|"@);
    if !text::starts_with(t, "|"@) || cells.len() < 3 {
        None
    } else {
        match number::i64_of(unquoted(cells[1]), 10) {
            Some(n) if is_name(unquoted(cells[2])) => Some((n, unquoted(cells[2]))),
            _ => None,
        }
    }
}

/// The row of a document's line. Bullets are read where system calls are documented.
pub open spec fn doc_row(line: Seq<char>, calls: bool) -> Option<(i64, Seq<char>)> {
    let t = text::trim(line);
    if calls && text::starts_with(t, "- "@) && bullet_row(t) is Some {
        bullet_row(t)
    } else {
        table_row(t)
    }
}

fn read_call(line: &[char]) -> (r: Option<Row>)
    ensures
        match r {
            Some(x) => call_row(line@) == Some(x@),
            None => call_row(line@) is None,
        },
{
    let rest = text::after_prefix(text::trimmed(line), "pub const SYS_")?;
    let (name, tail) = text::cut(rest, ": u64 = ")?;
    let n: i64 = read_num(tail)?;
    let mut full = text::chars_of("sys_");
    let low = deferrals::small_chars(name);
    text::extend(&mut full, low.as_slice());
    Some(Row { number: n, name: text::string_of(full.as_slice()) })
}

fn read_error(line: &[char]) -> (r: Option<Row>)
    ensures
        match r {
            Some(x) => error_row(line@) == Some(x@),
            None => error_row(line@) is None,
        },
{
    let (name, tail) = text::cut(text::trimmed(line), " = ")?;
    if name.len() == 0 || !text::all_ident(name) {
        return None;
    }
    let n: i64 = number::parse_i64(text::trimmed(text::trimmed_end_char(tail, ',')), 10)?;
    Some(Row { number: n, name: text::string_of(name) })
}

fn read_bullet(t: &[char]) -> (r: Option<Row>)
    ensures
        match r {
            Some(x) => bullet_row(t@) == Some(x@),
            None => bullet_row(t@) is None,
        },
{
    proof {
        reveal_strlit("`");
    }
    let p = text::pieces(t, "`");
    let cells = text::odd(&p);
    let ghost all = text::views(cells@);
    let mut name: Option<Vec<char>> = None;
    let mut i: usize = 0;
    assert(all.skip(0) =~= all);
    while i < cells.len() && name.is_none()
        invariant
            i <= cells.len(),
            all == text::views(cells@),
            match name {
                Some(n) => first_name(all) == Some(n@),
                None => first_name(all) == first_name(all.skip(i as int)),
            },
        decreases cells.len() - i,
    {
        assert(all.skip(i as int)[0] == cells[i as int]@);
        assert(all.skip(i as int).skip(1) =~= all.skip(i + 1));
        match text::after_prefix(cells[i], "sys_") {
            Some(rest) => match text::cut(rest, "(") {
                Some((n, _)) => {
                    let mut full = text::chars_of("sys_");
                    text::extend(&mut full, n);
                    name = Some(full);
                },
                None => {},
            },
            None => {},
        }
        i = i + 1;
    }
    let name = match name {
        Some(n) => n,
        None => {
            return None;
        },
    };
    let mut k: usize = 0;
    while k < cells.len() && !text::begins(cells[k], "0x")
        invariant
            k <= cells.len(),
            all == text::views(cells@),
            first_number(all) == first_number(all.skip(k as int)),
        decreases cells.len() - k,
    {
        assert(all.skip(k as int)[0] == cells[k as int]@);
        assert(all.skip(k as int).skip(1) =~= all.skip(k + 1));
        k = k + 1;
    }
    if k >= cells.len() {
        return None;
    }
    assert(all.skip(k as int)[0] == cells[k as int]@);
    let n: i64 = read_num(cells[k])?;
    Some(Row { number: n, name: text::string_of(name.as_slice()) })
}

fn unquote(cell: &[char]) -> (r: &[char])
    ensures
        r@ == unquoted(cell@),
{
    text::trimmed(text::trimmed_end_char(text::trimmed_char(text::trimmed(cell), '`'), '`'))
}

fn read_table_row(t: &[char]) -> (r: Option<Row>)
    ensures
        match r {
            Some(x) => table_row(t@) == Some(x@),
            None => table_row(t@) is None,
        },
{
    proof {
        reveal_strlit("|");
    }
    if !text::begins(t, "|") {
        return None;
    }
    let cells = text::pieces(t, "|");
    assert(text::views(cells@).len() == cells.len());
    if cells.len() < 3 {
        return None;
    }
    assert(text::views(cells@)[1] == cells[1]@);
    assert(text::views(cells@)[2] == cells[2]@);
    let n: i64 = number::parse_i64(unquote(cells[1]), 10)?;
    let name = unquote(cells[2]);
    if name.len() == 0 || !text::all_ident(name) {
        return None;
    }
    Some(Row { number: n, name: text::string_of(name) })
}

fn read_doc_row(line: &[char], calls: bool) -> (r: Option<Row>)
    ensures
        match r {
            Some(x) => doc_row(line@, calls) == Some(x@),
            None => doc_row(line@, calls) is None,
        },
{
    let t = text::trimmed(line);
    if calls && text::begins(t, "- ") {
        match read_bullet(t) {
            Some(x) => {
                return Some(x);
            },
            None => {},
        }
    }
    read_table_row(t)
}

/// The rows that lines give, in order.
pub open spec fn gathered(
    ls: Seq<Seq<char>>,
    f: spec_fn(Seq<char>) -> Option<(i64, Seq<char>)>,
) -> Seq<(i64, Seq<char>)>
    decreases ls.len(),
{
    if ls.len() == 0 {
        Seq::empty()
    } else {
        match f(ls.last()) {
            Some(x) => gathered(ls.drop_last(), f).push(x),
            None => gathered(ls.drop_last(), f),
        }
    }
}

/// How many of the lines declare a system call.
pub open spec fn declared(ls: Seq<Seq<char>>) -> nat
    decreases ls.len(),
{
    if ls.len() == 0 {
        0
    } else {
        declared(ls.drop_last()) + if declares_call(ls.last()) {
            1nat
        } else {
            0nat
        }
    }
}

proof fn lemma_rows_push(v: Seq<Row>, x: Row)
    ensures
        rows(v.push(x)) == rows(v).push(x@),
{
    assert(rows(v.push(x)) =~= rows(v).push(x@));
}

/// Whether every constant that was declared was read. One that is dropped unread could be missing
/// from the documentation too, and the two would seem to agree.
pub fn all_parsed(declared: usize, parsed: usize) -> (r: bool)
    ensures
        r == (declared == parsed),
{
    declared == parsed
}

/// The system calls that the kernel's source declares, and how many declarations there are: a
/// declaration whose number cannot be read has no row.
pub fn syscall_rows(source: &str) -> (r: (Vec<Row>, usize))
    ensures
        rows(r.0@) == gathered(text::lines(source@), |l: Seq<char>| call_row(l)),
        r.1 == declared(text::lines(source@)),
{
    let c = text::chars_of(source);
    let ls = text::lines_of(c.as_slice());
    let ghost all = text::lines(source@);
    let ghost f = |l: Seq<char>| call_row(l);
    let mut out: Vec<Row> = Vec::new();
    let mut n: usize = 0;
    let mut i: usize = 0;
    assert(rows(out@) =~= gathered(all.take(0), f));
    while i < ls.len()
        invariant
            i <= ls.len(),
            n <= i,
            all == text::views(ls@),
            f == (|l: Seq<char>| call_row(l)),
            rows(out@) == gathered(all.take(i as int), f),
            n == declared(all.take(i as int)),
        decreases ls.len() - i,
    {
        assert(all.take(i + 1).drop_last() =~= all.take(i as int));
        assert(all.take(i + 1).last() == ls[i as int]@);
        if text::begins(text::trimmed(ls[i]), "pub const SYS_") {
            n = n + 1;
        }
        match read_call(ls[i]) {
            Some(x) => {
                proof {
                    lemma_rows_push(out@, x);
                }
                out.push(x);
            },
            None => {},
        }
        i = i + 1;
    }
    assert(all.take(i as int) =~= all);
    (out, n)
}

/// The error codes that the kernel's source defines.
pub fn error_rows(source: &str) -> (r: Vec<Row>)
    ensures
        rows(r@) == gathered(text::lines(error_body(source@)), |l: Seq<char>| error_row(l)),
{
    let c = text::chars_of(source);
    let head = text::chars_of("enum KError");
    let none = text::take(c.as_slice(), 0);
    assert(none@ =~= Seq::<char>::empty());
    let body = match text::position(c.as_slice(), head.as_slice()) {
        None => none,
        Some(i) => {
            let tail = text::skip(c.as_slice(), i);
            match text::cut(tail, "\n}") {
                Some((b, _)) => b,
                None => tail,
            }
        },
    };
    let ls = text::lines_of(body);
    let ghost all = text::lines(body@);
    let ghost f = |l: Seq<char>| error_row(l);
    let mut out: Vec<Row> = Vec::new();
    let mut i: usize = 0;
    assert(rows(out@) =~= gathered(all.take(0), f));
    while i < ls.len()
        invariant
            i <= ls.len(),
            all == text::views(ls@),
            f == (|l: Seq<char>| error_row(l)),
            rows(out@) == gathered(all.take(i as int), f),
        decreases ls.len() - i,
    {
        assert(all.take(i + 1).drop_last() =~= all.take(i as int));
        assert(all.take(i + 1).last() == ls[i as int]@);
        match read_error(ls[i]) {
            Some(x) => {
                proof {
                    lemma_rows_push(out@, x);
                }
                out.push(x);
            },
            None => {},
        }
        i = i + 1;
    }
    assert(all.take(i as int) =~= all);
    out
}

/// The rows of a document.
pub fn doc_rows(doc: &str, calls: bool) -> (r: Vec<Row>)
    ensures
        rows(r@) == gathered(text::lines(doc@), |l: Seq<char>| doc_row(l, calls)),
{
    let c = text::chars_of(doc);
    let ls = text::lines_of(c.as_slice());
    let ghost all = text::lines(doc@);
    let ghost f = |l: Seq<char>| doc_row(l, calls);
    let mut out: Vec<Row> = Vec::new();
    let mut i: usize = 0;
    assert(rows(out@) =~= gathered(all.take(0), f));
    while i < ls.len()
        invariant
            i <= ls.len(),
            all == text::views(ls@),
            f == (|l: Seq<char>| doc_row(l, calls)),
            rows(out@) == gathered(all.take(i as int), f),
        decreases ls.len() - i,
    {
        assert(all.take(i + 1).drop_last() =~= all.take(i as int));
        assert(all.take(i + 1).last() == ls[i as int]@);
        match read_doc_row(ls[i], calls) {
            Some(x) => {
                proof {
                    lemma_rows_push(out@, x);
                }
                out.push(x);
            },
            None => {},
        }
        i = i + 1;
    }
    assert(all.take(i as int) =~= all);
    out
}

/// Row `a` stands behind row `b`: by number, then by name.
pub open spec fn behind(a: (i64, Seq<char>), b: (i64, Seq<char>)) -> bool {
    a.0 > b.0 || (a.0 == b.0 && table::before(b.1, a.1))
}

/// How many of the leading rows are not behind `x`.
pub open spec fn place(s: Seq<(i64, Seq<char>)>, x: (i64, Seq<char>)) -> nat
    decreases s.len(),
{
    if s.len() > 0 && !behind(s[0], x) {
        1 + place(s.skip(1), x)
    } else {
        0
    }
}

/// The rows in order.
pub open spec fn ordered(s: Seq<(i64, Seq<char>)>) -> Seq<(i64, Seq<char>)>
    decreases s.len(),
{
    if s.len() == 0 {
        s
    } else {
        let front = ordered(s.drop_last());
        front.insert(place(front, s.last()) as int, s.last())
    }
}

proof fn lemma_place(s: Seq<(i64, Seq<char>)>, x: (i64, Seq<char>))
    ensures
        place(s, x) <= s.len(),
    decreases s.len(),
{
    if s.len() > 0 && !behind(s[0], x) {
        lemma_place(s.skip(1), x);
    }
}

fn is_behind(a: &Row, b: &Row) -> (r: bool)
    ensures
        r == behind(a@, b@),
{
    if a.number != b.number {
        a.number > b.number
    } else {
        let x = text::chars_of(b.name.as_str());
        let y = text::chars_of(a.name.as_str());
        table::precedes(x.as_slice(), y.as_slice())
    }
}

fn order(v: Vec<Row>) -> (r: Vec<Row>)
    ensures
        rows(r@) == ordered(rows(v@)),
{
    let ghost all = rows(v@);
    let mut out: Vec<Row> = Vec::new();
    let mut i: usize = 0;
    assert(rows(out@) =~= ordered(all.take(0)));
    while i < v.len()
        invariant
            i <= v.len(),
            all == rows(v@),
            rows(out@) == ordered(all.take(i as int)),
        decreases v.len() - i,
    {
        assert(all.take(i + 1).drop_last() =~= all.take(i as int));
        assert(all.take(i + 1).last() == v[i as int]@);
        let ghost front = rows(out@);
        let ghost x = v[i as int]@;
        let mut k: usize = 0;
        assert(front.skip(0) =~= front);
        while k < out.len() && !is_behind(&out[k], &v[i])
            invariant
                k <= out.len(),
                i < v.len(),
                x == v[i as int]@,
                front == rows(out@),
                place(front, x) == k + place(front.skip(k as int), x),
            decreases out.len() - k,
        {
            assert(front.skip(k as int)[0] == out[k as int]@);
            assert(front.skip(k as int).skip(1) =~= front.skip(k + 1));
            k = k + 1;
        }
        proof {
            if k < out.len() {
                assert(front.skip(k as int)[0] == out[k as int]@);
            }
            assert(place(front, x) == k);
        }
        let c = text::chars_of(v[i].name.as_str());
        let row = Row { number: v[i].number, name: text::string_of(c.as_slice()) };
        out.insert(k, row);
        assert(rows(out@) =~= front.insert(k as int, x));
        i = i + 1;
    }
    assert(all.take(i as int) =~= all);
    out
}

/// What is wrong between the source's rows and the document's, by their places in order.
#[derive(Debug, Clone, Copy, PartialEq, Eq, Structural)]
pub enum TableFault {
    /// A row of the source is not in the document.
    Undocumented(usize),
    /// A row of the source has another name in the document: its place, and the document's.
    Renamed(usize, usize),
    /// A row of the document is not in the source.
    Undefined(usize),
}

/// The first row with the number.
pub open spec fn row_of(s: Seq<(i64, Seq<char>)>, n: i64) -> Option<int>
    decreases s.len(),
{
    if s.len() == 0 {
        None
    } else {
        match row_of(s.drop_last(), n) {
            Some(i) => Some(i),
            None => if s.last().0 == n {
                Some(s.len() - 1)
            } else {
                None
            },
        }
    }
}

/// What is wrong with the first `k` rows of the source.
pub open spec fn source_faults(
    src: Seq<(i64, Seq<char>)>,
    doc: Seq<(i64, Seq<char>)>,
    k: int,
) -> Seq<TableFault>
    decreases k,
{
    if k <= 0 {
        Seq::empty()
    } else {
        let front = source_faults(src, doc, k - 1);
        match row_of(doc, src[k - 1].0) {
            None => front.push(TableFault::Undocumented((k - 1) as usize)),
            Some(j) => if doc[j].1 != src[k - 1].1 {
                front.push(TableFault::Renamed((k - 1) as usize, j as usize))
            } else {
                front
            },
        }
    }
}

/// What is wrong with the first `k` rows of the document.
pub open spec fn doc_faults(
    src: Seq<(i64, Seq<char>)>,
    doc: Seq<(i64, Seq<char>)>,
    k: int,
) -> Seq<TableFault>
    decreases k,
{
    if k <= 0 {
        Seq::empty()
    } else {
        let front = doc_faults(src, doc, k - 1);
        if row_of(src, doc[k - 1].0) is None {
            front.push(TableFault::Undefined((k - 1) as usize))
        } else {
            front
        }
    }
}

fn find_row(v: &Vec<Row>, n: i64) -> (r: Option<usize>)
    ensures
        match r {
            Some(i) => i < v.len() && row_of(rows(v@), n) == Some(i as int),
            None => row_of(rows(v@), n) is None,
        },
{
    let ghost all = rows(v@);
    let mut i: usize = 0;
    while i < v.len()
        invariant
            i <= v.len(),
            all == rows(v@),
            row_of(all.take(i as int), n) is None,
        decreases v.len() - i,
    {
        assert(all.take(i + 1).drop_last() =~= all.take(i as int));
        assert(all.take(i + 1).last() == v[i as int]@);
        if v[i].number == n {
            proof {
                lemma_row_prefix(all, n, i + 1);
            }
            return Some(i);
        }
        i = i + 1;
    }
    assert(all.take(i as int) =~= all);
    None
}

proof fn lemma_row_prefix(s: Seq<(i64, Seq<char>)>, n: i64, k: int)
    requires
        0 <= k <= s.len(),
        row_of(s.take(k), n) is Some,
    ensures
        row_of(s, n) == row_of(s.take(k), n),
    decreases s.len(),
{
    if k == s.len() {
        assert(s.take(k) =~= s);
    } else {
        assert(s.drop_last().take(k) =~= s.take(k));
        lemma_row_prefix(s.drop_last(), n, k);
    }
}

/// The comparison of the source's rows with the document's.
#[derive(Debug)]
pub struct Comparison {
    /// The source's rows, in order.
    pub source: Vec<Row>,
    /// The document's rows, in order.
    pub doc: Vec<Row>,
    /// One side has no rows, so nothing could be compared.
    pub vacuous: bool,
    /// What is wrong.
    pub faults: Vec<TableFault>,
}

/// Compares the rows of the source with those of the document.
pub fn compare_tables(source: Vec<Row>, doc: Vec<Row>) -> (r: Comparison)
    ensures
        ({
            let s = ordered(rows(source@));
            let d = ordered(rows(doc@));
            &&& rows(r.source@) == s
            &&& rows(r.doc@) == d
            &&& r.vacuous == (s.len() == 0 || d.len() == 0)
            &&& r.faults@ == (if r.vacuous {
                Seq::<TableFault>::empty()
            } else {
                source_faults(s, d, s.len() as int) + doc_faults(s, d, d.len() as int)
            })
        }),
{
    let s = order(source);
    let d = order(doc);
    let ghost sv = rows(s@);
    let ghost dv = rows(d@);
    assert(sv.len() == s.len() && dv.len() == d.len());
    let mut faults: Vec<TableFault> = Vec::new();
    if s.len() == 0 || d.len() == 0 {
        return Comparison { source: s, doc: d, vacuous: true, faults };
    }
    let mut k: usize = 0;
    while k < s.len()
        invariant
            k <= s.len(),
            sv == rows(s@),
            dv == rows(d@),
            faults@ == source_faults(sv, dv, k as int),
        decreases s.len() - k,
    {
        assert(sv[k as int] == s[k as int]@);
        match find_row(&d, s[k].number) {
            None => {
                faults.push(TableFault::Undocumented(k));
            },
            Some(j) => {
                assert(dv[j as int] == d[j as int]@);
                let x = text::chars_of(d[j].name.as_str());
                let y = text::chars_of(s[k].name.as_str());
                if !text::same(x.as_slice(), y.as_slice()) {
                    faults.push(TableFault::Renamed(k, j));
                }
            },
        }
        k = k + 1;
    }
    let ghost front = faults@;
    k = 0;
    assert(front + doc_faults(sv, dv, 0) =~= front);
    while k < d.len()
        invariant
            k <= d.len(),
            sv == rows(s@),
            dv == rows(d@),
            faults@ == front + doc_faults(sv, dv, k as int),
        decreases d.len() - k,
    {
        assert(dv[k as int] == d[k as int]@);
        if find_row(&s, d[k].number).is_none() {
            faults.push(TableFault::Undefined(k));
        }
        k = k + 1;
        assert(faults@ =~= front + doc_faults(sv, dv, k as int));
    }
    Comparison { source: s, doc: d, vacuous: false, faults }
}

proof fn lemma_row_of(s: Seq<(i64, Seq<char>)>, n: i64)
    ensures
        match row_of(s, n) {
            Some(i) => 0 <= i < s.len() && s[i].0 == n,
            None => forall|i: int| 0 <= i < s.len() ==> (#[trigger] s[i]).0 != n,
        },
    decreases s.len(),
{
    if s.len() > 0 {
        lemma_row_of(s.drop_last(), n);
        if row_of(s, n) is None {
            assert forall|i: int| 0 <= i < s.len() implies (#[trigger] s[i]).0 != n by {
                if i < s.len() - 1 {
                    assert(s.drop_last()[i] == s[i]);
                }
            }
        }
    }
}

proof fn lemma_source_clean(src: Seq<(i64, Seq<char>)>, doc: Seq<(i64, Seq<char>)>, k: int, i: int)
    requires
        0 <= i < k <= src.len(),
        source_faults(src, doc, k).len() == 0,
    ensures
        row_of(doc, src[i].0) is Some,
        doc[row_of(doc, src[i].0)->0].1 == src[i].1,
    decreases k,
{
    if i < k - 1 {
        lemma_source_clean(src, doc, k - 1, i);
    }
}

proof fn lemma_doc_clean(src: Seq<(i64, Seq<char>)>, doc: Seq<(i64, Seq<char>)>, k: int, i: int)
    requires
        0 <= i < k <= doc.len(),
        doc_faults(src, doc, k).len() == 0,
    ensures
        row_of(src, doc[i].0) is Some,
    decreases k,
{
    if i < k - 1 {
        lemma_doc_clean(src, doc, k - 1, i);
    }
}

/// Where a comparison finds nothing wrong, each row of the source stands in the document under
/// the same name, and each number of the document is the source's.
pub proof fn law_a_clean_comparison_means_agreement(
    src: Seq<(i64, Seq<char>)>,
    doc: Seq<(i64, Seq<char>)>,
)
    requires
        source_faults(src, doc, src.len() as int).len() == 0,
        doc_faults(src, doc, doc.len() as int).len() == 0,
    ensures
        forall|i: int| 0 <= i < src.len() ==> doc.contains(#[trigger] src[i]),
        forall|j: int|
            0 <= j < doc.len() ==> exists|i: int|
                0 <= i < src.len() && src[i].0 == (#[trigger] doc[j]).0,
{
    assert forall|i: int| 0 <= i < src.len() implies doc.contains(#[trigger] src[i]) by {
        lemma_source_clean(src, doc, src.len() as int, i);
        lemma_row_of(doc, src[i].0);
        let j = row_of(doc, src[i].0)->0;
        assert(doc[j] == src[i]);
    }
    assert forall|j: int| 0 <= j < doc.len() implies exists|i: int|
        0 <= i < src.len() && src[i].0 == (#[trigger] doc[j]).0 by {
        lemma_doc_clean(src, doc, doc.len() as int, j);
        lemma_row_of(src, doc[j].0);
        let i = row_of(src, doc[j].0)->0;
        assert(src[i].0 == doc[j].0);
    }
}

/// The variants of the error enum stand between its name and the brace that closes it; nothing before
/// or behind is read, and without the enum nothing is.
pub proof fn law_only_the_enums_body_is_read(before: Seq<char>, body: Seq<char>, after: Seq<char>)
    requires
        text::find(before + "enum KError"@, "enum KError"@) == Some(before.len() as int),
        text::find("enum KError"@ + body + "\n}"@, "\n}"@) == Some(("enum KError"@ + body).len() as int),
    ensures
        error_body(before + "enum KError"@ + (body + "\n}"@ + after)) == "enum KError"@ + body,
        forall|s: Seq<char>|
            !text::contains(s, "enum KError"@) ==> #[trigger] error_body(s).len() == 0,
{
    assert("enum KError"@.len() == 11) by {
        reveal_strlit("enum KError");
    }
    assert("\n}"@.len() == 2) by {
        reveal_strlit("\n}");
    }
    let rest = body + "\n}"@ + after;
    let source = before + "enum KError"@ + rest;
    text::lemma_cut_first(before, "enum KError"@, rest);
    let from = source.skip(before.len() as int);
    let whole = "enum KError"@ + body;
    assert(from =~= whole + "\n}"@ + after);
    text::lemma_cut_first(whole, "\n}"@, after);
    assert forall|s: Seq<char>| !text::contains(s, "enum KError"@) implies #[trigger] error_body(
        s,
    ).len() == 0 by {
        text::lemma_find(s, "enum KError"@);
    }
}

} // verus!
