//! Binary portable pixmaps, as the machine's screen dump writes them.

use vstd::prelude::*;

use crate::number;
use crate::wire;

verus! {

/// White space of ASCII as pixmap headers know it.
pub open spec fn is_blank(b: u8) -> bool {
    b == 0x20 || b == 0x09 || b == 0x0A || b == 0x0C || b == 0x0D
}

/// The first position from `i` on that is not white space.
pub open spec fn blanks_end(d: Seq<u8>, i: int) -> int
    decreases d.len() - i,
{
    if i < d.len() && is_blank(d[i]) {
        blanks_end(d, i + 1)
    } else {
        i
    }
}

/// The first position from `i` on that is white space.
pub open spec fn field_end(d: Seq<u8>, i: int) -> int
    decreases d.len() - i,
{
    if i < d.len() && !is_blank(d[i]) {
        field_end(d, i + 1)
    } else {
        i
    }
}

/// The first position from `i` on that is a line feed.
pub open spec fn line_end(d: Seq<u8>, i: int) -> int
    decreases d.len() - i,
{
    if i < d.len() && d[i] != 0x0A {
        line_end(d, i + 1)
    } else {
        i
    }
}

/// Each search stops inside the data, and a line that does not begin at its end has a length.
pub proof fn lemma_ends(d: Seq<u8>, i: int)
    requires
        0 <= i <= d.len(),
    ensures
        i <= blanks_end(d, i) <= d.len(),
        i <= field_end(d, i) <= d.len(),
        i <= line_end(d, i) <= d.len(),
        i < d.len() && d[i] != 0x0A ==> line_end(d, i) > i,
    decreases d.len() - i,
{
    if i < d.len() {
        lemma_ends(d, i + 1);
    }
}

/// The header's fields, up to four, from `i` on and behind those in `got`; and the position
/// behind the last. A field that would begin with `#` is a comment to the end of its line.
pub open spec fn header(d: Seq<u8>, i: int, got: Seq<Seq<u8>>) -> (Seq<Seq<u8>>, int)
    decreases d.len() - i + 4 - got.len(),
{
    if 0 <= i < d.len() && got.len() < 4 {
        proof {
            lemma_ends(d, i);
            lemma_ends(d, blanks_end(d, i));
        }
        let a = blanks_end(d, i);
        if a < d.len() && d[a] == 0x23 {
            header(d, line_end(d, a), got)
        } else {
            header(d, field_end(d, a), got.push(d.subrange(a, field_end(d, a))))
        }
    } else {
        (got, i)
    }
}

/// Why a pixmap was not read.
#[derive(Debug, Clone, Copy, PartialEq, Eq, Structural)]
pub enum PpmError {
    /// The header is not that of a binary pixmap.
    NotPpm,
    /// The width is no number.
    BadWidth,
    /// The height is no number.
    BadHeight,
    /// The largest sample is not 255.
    BadMaxval,
    /// The body is shorter than the size asks.
    Short,
}

/// The size and the samples of a pixmap.
pub open spec fn pixmap(d: Seq<u8>) -> Result<(u32, u32, Seq<u8>), PpmError> {
    let (f, end) = header(d, 0, Seq::empty());
    if f.len() != 4 || f[0] != seq![0x50u8, 0x36u8] {
        Err(PpmError::NotPpm)
    } else {
        match (number::u32_of(wire::latin(f[1])), number::u32_of(wire::latin(f[2]))) {
            (None, _) => Err(PpmError::BadWidth),
            (_, None) => Err(PpmError::BadHeight),
            (Some(w), Some(h)) => {
                let start = end + 1;
                let need = w * h * 3;
                if f[3] != seq![0x32u8, 0x35u8, 0x35u8] {
                    Err(PpmError::BadMaxval)
                } else if d.len() < start + need {
                    Err(PpmError::Short)
                } else {
                    Ok((w, h, d.subrange(start, start + need)))
                }
            },
        }
    }
}

fn blank(b: u8) -> (r: bool)
    ensures
        r == is_blank(b),
{
    b == 0x20 || b == 0x09 || b == 0x0A || b == 0x0C || b == 0x0D
}

fn after_blanks(d: &[u8], from: usize) -> (r: usize)
    requires
        from <= d.len(),
    ensures
        r == blanks_end(d@, from as int),
        from <= r <= d.len(),
{
    let mut i: usize = from;
    while i < d.len() && blank(d[i])
        invariant
            from <= i <= d.len(),
            blanks_end(d@, from as int) == blanks_end(d@, i as int),
        decreases d.len() - i,
    {
        i = i + 1;
    }
    i
}

fn after_field(d: &[u8], from: usize) -> (r: usize)
    requires
        from <= d.len(),
    ensures
        r == field_end(d@, from as int),
        from <= r <= d.len(),
{
    let mut i: usize = from;
    while i < d.len() && !blank(d[i])
        invariant
            from <= i <= d.len(),
            field_end(d@, from as int) == field_end(d@, i as int),
        decreases d.len() - i,
    {
        i = i + 1;
    }
    i
}

fn after_line(d: &[u8], from: usize) -> (r: usize)
    requires
        from <= d.len(),
    ensures
        r == line_end(d@, from as int),
        from <= r <= d.len(),
{
    let mut i: usize = from;
    while i < d.len() && d[i] != 0x0A
        invariant
            from <= i <= d.len(),
            line_end(d@, from as int) == line_end(d@, i as int),
        decreases d.len() - i,
    {
        i = i + 1;
    }
    i
}

/// What the slices hold.
spec fn views(v: Seq<&[u8]>) -> Seq<Seq<u8>> {
    v.map_values(|x: &[u8]| x@)
}

/// Reads a binary pixmap: its width, its height, and three samples a pixel.
pub fn parse_ppm(data: &[u8]) -> (r: Result<(u32, u32, Vec<u8>), PpmError>)
    ensures
        match r {
            Ok((w, h, body)) => pixmap(data@) == Ok::<(u32, u32, Seq<u8>), PpmError>(
                (w, h, body@),
            ),
            Err(e) => pixmap(data@) == Err::<(u32, u32, Seq<u8>), PpmError>(e),
        },
{
    let mut got: Vec<&[u8]> = Vec::new();
    let mut i: usize = 0;
    assert(views(got@) =~= Seq::empty());
    while got.len() < 4 && i < data.len()
        invariant
            i <= data.len(),
            got.len() <= 4,
            header(data@, 0, Seq::empty()) == header(data@, i as int, views(got@)),
        decreases data.len() - i + 4 - got.len(),
    {
        let ghost before = i;
        proof {
            lemma_ends(data@, i as int);
            lemma_ends(data@, blanks_end(data@, i as int));
            assert(views(got@).len() == got.len());
        }
        let a: usize = after_blanks(data, i);
        if a < data.len() && data[a] == 0x23 {
            i = after_line(data, a);
        } else {
            let e: usize = after_field(data, a);
            let f = wire::part(data, a, e);
            assert(views(got@.push(f)) =~= views(got@).push(f@));
            got.push(f);
            i = e;
        }
    }
    assert(views(got@).len() == got.len());
    let p6: [u8; 2] = [0x50, 0x36];
    let full: [u8; 3] = [0x32, 0x35, 0x35];
    assert(p6@ =~= seq![0x50u8, 0x36u8]);
    assert(full@ =~= seq![0x32u8, 0x35u8, 0x35u8]);
    if got.len() != 4 {
        return Err(PpmError::NotPpm);
    }
    assert(views(got@)[0] == got[0]@ && views(got@)[1] == got[1]@ && views(got@)[2] == got[2]@
        && views(got@)[3] == got[3]@);
    if !wire::same_bytes(got[0], p6.as_slice()) {
        return Err(PpmError::NotPpm);
    }
    let wt = wire::latin_of(got[1]);
    let ht = wire::latin_of(got[2]);
    let w: u32 = match number::parse_u32(wt.as_slice()) {
        Some(w) => w,
        None => {
            return Err(PpmError::BadWidth);
        },
    };
    let h: u32 = match number::parse_u32(ht.as_slice()) {
        Some(h) => h,
        None => {
            return Err(PpmError::BadHeight);
        },
    };
    if !wire::same_bytes(got[3], full.as_slice()) {
        return Err(PpmError::BadMaxval);
    }
    assert(w * h <= 0xffff_ffff * 0xffff_ffff) by (nonlinear_arith)
        requires
            w <= 0xffff_ffff,
            h <= 0xffff_ffff,
    ;
    let need: u128 = w as u128 * h as u128 * 3;
    if (data.len() as u128) < i as u128 + 1 + need {
        return Err(PpmError::Short);
    }
    let n: usize = need as usize;
    Ok((w, h, wire::copy(wire::part(data, i + 1, i + 1 + n))))
}

/// The decimal digits of a number, as bytes.
pub open spec fn digits_of(n: nat) -> Seq<u8> {
    number::numeral(n, 10).map_values(|c: char| c as u8)
}

/// A pixmap as a screen dump writes it: the header on three lines, and then the samples.
pub open spec fn dumped(w: u32, h: u32, rgb: Seq<u8>) -> Seq<u8> {
    seq![0x50u8, 0x36u8, 0x0Au8] + digits_of(w as nat) + seq![0x20u8] + digits_of(h as nat) + seq![
        0x0Au8,
        0x32u8,
        0x35u8,
        0x35u8,
        0x0Au8,
    ] + rgb
}

proof fn lemma_numeral_is_digits(n: nat)
    ensures
        number::numeral(n, 10).len() > 0,
        forall|i: int|
            0 <= i < number::numeral(n, 10).len() ==> 48 <= #[trigger] number::numeral(n, 10)[i] as int <= 57,
    decreases n,
{
    if n >= 10 {
        lemma_numeral_is_digits(n / 10);
    }
}

proof fn lemma_digits_read_back(n: u32)
    ensures
        number::u32_of(wire::latin(digits_of(n as nat))) == Some(n),
        digits_of(n as nat).len() > 0,
        forall|i: int|
            0 <= i < digits_of(n as nat).len() ==> 48 <= #[trigger] digits_of(n as nat)[i] <= 57,
{
    let s = number::numeral(n as nat, 10);
    lemma_numeral_is_digits(n as nat);
    number::law_numeral_reads_back(n as nat, 10);
    assert forall|i: int| 0 <= i < s.len() implies 48 <= #[trigger] digits_of(n as nat)[i] <= 57 by {
        assert(48 <= s[i] as int <= 57);
    }
    assert forall|i: int| 0 <= i < s.len() implies wire::latin(digits_of(n as nat))[i] == s[i] by {
        assert(48 <= s[i] as int <= 57);
    }
    assert(wire::latin(digits_of(n as nat)) =~= s);
    assert(s[0] != '+');
}

/// A field that white space ends is found whole.
proof fn lemma_field(d: Seq<u8>, a: int, b: int)
    requires
        0 <= a <= b < d.len(),
        forall|i: int| a <= i < b ==> !is_blank(#[trigger] d[i]),
        is_blank(d[b]),
    ensures
        field_end(d, a) == b,
    decreases b - a,
{
    if a < b {
        lemma_field(d, a + 1, b);
    }
}

/// A dumped pixmap reads back as the size and the samples that it was dumped from, whatever follows
/// it.
pub proof fn law_a_dumped_pixmap_reads_back(w: u32, h: u32, rgb: Seq<u8>, after: Seq<u8>)
    requires
        rgb.len() == w * h * 3,
    ensures
        pixmap(dumped(w, h, rgb) + after) == Ok::<(u32, u32, Seq<u8>), PpmError>((w, h, rgb)),
{
    let d = dumped(w, h, rgb) + after;
    let dw = digits_of(w as nat);
    let dh = digits_of(h as nat);
    lemma_digits_read_back(w);
    lemma_digits_read_back(h);
    let a = 3 + dw.len() as int;
    let b = a + 1 + dh.len() as int;
    assert(d[0] == 0x50 && d[1] == 0x36 && d[2] == 0x0A);
    assert(d[a] == 0x20);
    assert(d[b] == 0x0A && d[b + 1] == 0x32 && d[b + 2] == 0x35 && d[b + 3] == 0x35 && d[b + 4]
        == 0x0A);
    assert forall|i: int| 3 <= i < a implies #[trigger] d[i] == dw[i - 3] by {}
    assert forall|i: int| a + 1 <= i < b implies #[trigger] d[i] == dh[i - a - 1] by {}
    lemma_field(d, 0, 2);
    lemma_field(d, 3, a);
    lemma_field(d, a + 1, b);
    lemma_field(d, b + 1, b + 4);
    reveal_with_fuel(blanks_end, 2);
    assert(blanks_end(d, 0) == 0);
    assert(d[3] == dw[0]);
    assert(blanks_end(d, 2) == 3);
    assert(d[a + 1] == dh[0]);
    assert(blanks_end(d, a) == a + 1);
    assert(blanks_end(d, b) == b + 1);
    reveal_with_fuel(header, 5);
    let f0 = Seq::<Seq<u8>>::empty();
    let f1 = f0.push(d.subrange(0, 2));
    let f2 = f1.push(d.subrange(3, a));
    let f3 = f2.push(d.subrange(a + 1, b));
    let f4 = f3.push(d.subrange(b + 1, b + 4));
    assert(header(d, b + 4, f4) == (f4, b + 4));
    assert(header(d, b, f3) == (f4, b + 4));
    assert(header(d, a, f2) == (f4, b + 4));
    assert(header(d, 2, f1) == (f4, b + 4));
    assert(header(d, 0, f0) == (f4, b + 4));
    assert(d.subrange(0, 2) =~= seq![0x50u8, 0x36u8]);
    assert(d.subrange(3, a) =~= dw);
    assert(d.subrange(a + 1, b) =~= dh);
    assert(d.subrange(b + 1, b + 4) =~= seq![0x32u8, 0x35u8, 0x35u8]);
    assert(d.subrange(b + 5, b + 5 + rgb.len()) =~= rgb);
}

/// A dump that breaks off before its last sample is short, whatever size it announces.
#[verifier::spinoff_prover]
#[verifier::rlimit(40)]
pub proof fn law_a_broken_dump_is_short(w: u32, h: u32, rgb: Seq<u8>)
    requires
        rgb.len() < w * h * 3,
    ensures
        pixmap(dumped(w, h, rgb)) == Err::<(u32, u32, Seq<u8>), PpmError>(PpmError::Short),
{
    let d = dumped(w, h, rgb);
    let dw = digits_of(w as nat);
    let dh = digits_of(h as nat);
    lemma_digits_read_back(w);
    lemma_digits_read_back(h);
    let a = 3 + dw.len() as int;
    let b = a + 1 + dh.len() as int;
    assert forall|i: int| 3 <= i < a implies !is_blank(#[trigger] d[i]) by {
        assert(d[i] == dw[i - 3]);
    }
    assert forall|i: int| a + 1 <= i < b implies !is_blank(#[trigger] d[i]) by {
        assert(d[i] == dh[i - a - 1]);
    }
    assert(d[a] == 0x20 && d[b] == 0x0A && d[b + 4] == 0x0A);
    assert(d[b + 1] == 0x32 && d[b + 2] == 0x35 && d[b + 3] == 0x35);
    assert(d[3] == dw[0] && d[a + 1] == dh[0]);
    lemma_field(d, 0, 2);
    lemma_field(d, 3, a);
    lemma_field(d, a + 1, b);
    lemma_field(d, b + 1, b + 4);
    reveal_with_fuel(blanks_end, 3);
    reveal_with_fuel(header, 6);
    assert(d.subrange(0, 2) =~= seq![0x50u8, 0x36u8]);
    assert(d.subrange(3, a) =~= dw);
    assert(d.subrange(a + 1, b) =~= dh);
    assert(d.subrange(b + 1, b + 4) =~= seq![0x32u8, 0x35u8, 0x35u8]);
}

} // verus!
