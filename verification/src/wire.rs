//! Bytes: little-endian fields, and text that arrives as bytes.

use vstd::prelude::*;
use vstd::slice::slice_subrange;

verus! {

/// What `String::from_utf8_lossy` makes of bytes that are no UTF-8: text with replacement
/// characters in it.
pub uninterp spec fn lossy_text(bytes: Seq<u8>) -> Seq<char>;

/// `String::from_utf8_lossy`, made owned: the text that the bytes encode, and where they are no
/// UTF-8 a text that is a function of the bytes alone.
#[verifier::external_body]
pub(crate) fn lossy(bytes: &[u8]) -> (r: String)
    ensures
        vstd::utf8::valid_utf8(bytes@) ==> r@ == vstd::utf8::decode_utf8(bytes@),
        !vstd::utf8::valid_utf8(bytes@) ==> r@ == lossy_text(bytes@),
{
    String::from_utf8_lossy(bytes).into_owned()
}

/// The text that bytes stand for.
pub open spec fn decoded(bytes: Seq<u8>) -> Seq<char> {
    if vstd::utf8::valid_utf8(bytes) {
        vstd::utf8::decode_utf8(bytes)
    } else {
        lossy_text(bytes)
    }
}

/// The number whose little-endian bytes are `s`.
pub open spec fn le(s: Seq<u8>) -> nat
    decreases s.len(),
{
    if s.len() == 0 {
        0
    } else {
        s[0] as nat + 256 * le(s.skip(1))
    }
}

/// The low `n` bytes of a number, little-endian.
pub open spec fn le_bytes(v: nat, n: nat) -> Seq<u8>
    decreases n,
{
    if n == 0 {
        Seq::empty()
    } else {
        seq![(v % 256) as u8] + le_bytes(v / 256, (n - 1) as nat)
    }
}

/// The `n`-byte field at `o`, if it lies inside `b`.
pub open spec fn field(b: Seq<u8>, o: int, n: int) -> Option<nat> {
    if 0 <= o && o + n <= b.len() {
        Some(le(b.subrange(o, o + n)))
    } else {
        None
    }
}

/// Two to the eight times `n`.
pub open spec fn byte_range(n: nat) -> nat
    decreases n,
{
    if n == 0 {
        1
    } else {
        256 * byte_range((n - 1) as nat)
    }
}

/// A field of `n` bytes is below two to the eight times `n`.
pub proof fn lemma_le_bound(s: Seq<u8>)
    ensures
        le(s) < byte_range(s.len()),
    decreases s.len(),
{
    if s.len() > 0 {
        lemma_le_bound(s.skip(1));
    }
}

/// What is written as a little-endian field reads back.
pub proof fn law_field_reads_back(v: nat, n: nat)
    requires
        v < byte_range(n),
    ensures
        le_bytes(v, n).len() == n,
        le(le_bytes(v, n)) == v,
    decreases n,
{
    if n > 0 {
        let rest = le_bytes(v / 256, (n - 1) as nat);
        law_field_reads_back(v / 256, (n - 1) as nat);
        assert(le_bytes(v, n).skip(1) =~= rest);
    }
}

proof fn lemma_byte_ranges()
    ensures
        byte_range(1) == 0x100,
        byte_range(2) == 0x1_0000,
        byte_range(4) == 0x1_0000_0000,
        byte_range(8) == 0x1_0000_0000_0000_0000,
{
    reveal_with_fuel(byte_range, 9);
}

/// Reads the `n`-byte little-endian field at `o`.
pub fn read_le(b: &[u8], o: usize, n: usize) -> (r: Option<u64>)
    requires
        n <= 8,
    ensures
        match r {
            Some(v) => field(b@, o as int, n as int) == Some(v as nat) && v < byte_range(n as nat),
            None => field(b@, o as int, n as int) is None,
        },
{
    if o > b.len() || n > b.len() - o {
        return None;
    }
    let ghost s = b@.subrange(o as int, o + n);
    let mut acc: u64 = 0;
    let mut i: usize = n;
    proof {
        assert(s.skip(n as int) =~= Seq::<u8>::empty());
    }
    while i > 0
        invariant
            i <= n <= 8,
            o + n <= b.len(),
            s == b@.subrange(o as int, o + n),
            acc == le(s.skip(i as int)),
        decreases i,
    {
        i = i - 1;
        proof {
            assert(s.skip(i as int).skip(1) =~= s.skip(i + 1));
            assert(s.skip(i as int)[0] == b[o + i]);
            lemma_le_bound(s.skip(i + 1));
            lemma_range_mono((n - i - 1) as nat, 7);
            reveal_with_fuel(byte_range, 9);
        }
        acc = b[o + i] as u64 + 256 * acc;
    }
    proof {
        assert(s.skip(0) =~= s);
        lemma_le_bound(s);
    }
    Some(acc)
}

proof fn lemma_range_mono(a: nat, b: nat)
    requires
        a <= b,
    ensures
        byte_range(a) <= byte_range(b),
    decreases b,
{
    if a < b {
        lemma_range_mono(a, (b - 1) as nat);
    }
}

/// The two-byte field at `o`.
pub fn u16_at(b: &[u8], o: usize) -> (r: Option<u16>)
    ensures
        match r {
            Some(v) => field(b@, o as int, 2) == Some(v as nat),
            None => field(b@, o as int, 2) is None,
        },
{
    proof {
        lemma_byte_ranges();
    }
    match read_le(b, o, 2) {
        Some(v) => Some(v as u16),
        None => None,
    }
}

/// The four-byte field at `o`.
pub fn u32_at(b: &[u8], o: usize) -> (r: Option<u32>)
    ensures
        match r {
            Some(v) => field(b@, o as int, 4) == Some(v as nat),
            None => field(b@, o as int, 4) is None,
        },
{
    proof {
        lemma_byte_ranges();
    }
    match read_le(b, o, 4) {
        Some(v) => Some(v as u32),
        None => None,
    }
}

/// The eight-byte field at `o`.
pub fn u64_at(b: &[u8], o: usize) -> (r: Option<u64>)
    ensures
        match r {
            Some(v) => field(b@, o as int, 8) == Some(v as nat),
            None => field(b@, o as int, 8) is None,
        },
{
    read_le(b, o, 8)
}

/// Writes the low `n` bytes of `v`, little-endian.
pub fn write_le(v: u64, n: usize) -> (r: Vec<u8>)
    ensures
        r@ == le_bytes(v as nat, n as nat),
{
    let mut out: Vec<u8> = Vec::new();
    let mut rest: u64 = v;
    let mut i: usize = 0;
    while i < n
        invariant
            i <= n,
            out@ + le_bytes(rest as nat, (n - i) as nat) == le_bytes(v as nat, n as nat),
        decreases n - i,
    {
        let low: u8 = (rest % 256) as u8;
        let ghost tail = le_bytes((rest / 256) as nat, (n - i - 1) as nat);
        assert(out@ + (seq![low] + tail) =~= out@.push(low) + tail);
        out.push(low);
        rest = rest / 256;
        i = i + 1;
    }
    assert(out@ + Seq::<u8>::empty() =~= out@);
    out
}

/// Bytes as characters of the same number.
pub open spec fn latin(s: Seq<u8>) -> Seq<char> {
    Seq::new(s.len(), |i: int| s[i] as char)
}

/// Reads bytes as characters of the same number.
pub fn latin_of(s: &[u8]) -> (r: Vec<char>)
    ensures
        r@ == latin(s@),
{
    let mut out: Vec<char> = Vec::new();
    let mut i: usize = 0;
    while i < s.len()
        invariant
            i <= s.len(),
            out@.len() == i,
            forall|j: int| 0 <= j < i ==> out@[j] == s@[j] as char,
        decreases s.len() - i,
    {
        out.push(s[i] as char);
        i = i + 1;
    }
    assert(out@ =~= latin(s@));
    out
}

/// Whether two runs of bytes are the same.
pub fn same_bytes(a: &[u8], b: &[u8]) -> (r: bool)
    ensures
        r == (a@ == b@),
{
    if a.len() != b.len() {
        return false;
    }
    let mut i: usize = 0;
    while i < a.len()
        invariant
            i <= a.len(),
            a.len() == b.len(),
            forall|j: int| 0 <= j < i ==> a[j] == b[j],
        decreases a.len() - i,
    {
        if a[i] != b[i] {
            return false;
        }
        i = i + 1;
    }
    assert(a@ =~= b@);
    true
}

/// The bytes of `b` from `i` up to `j`.
pub fn part(b: &[u8], i: usize, j: usize) -> (r: &[u8])
    requires
        i <= j <= b.len(),
    ensures
        r@ == b@.subrange(i as int, j as int),
{
    slice_subrange(b, i, j)
}

/// A copy of the bytes.
pub fn copy(b: &[u8]) -> (r: Vec<u8>)
    ensures
        r@ == b@,
{
    let mut out: Vec<u8> = Vec::new();
    let mut i: usize = 0;
    while i < b.len()
        invariant
            i <= b.len(),
            out@ == b@.take(i as int),
        decreases b.len() - i,
    {
        out.push(b[i]);
        i = i + 1;
        assert(b@.take(i as int) =~= b@.take(i - 1).push(b[i - 1]));
    }
    assert(b@.take(i as int) =~= b@);
    out
}

/// Text that was encoded arrives as it was.
pub proof fn law_encoded_text_arrives(s: Seq<char>)
    ensures
        decoded(vstd::utf8::encode_utf8(s)) == s,
{
    vstd::utf8::encode_utf8_valid_utf8(s);
    vstd::utf8::encode_utf8_decode_utf8(s);
}

/// A field is read exactly where all of it lies inside the bytes, and as the bytes there and no others
/// say.
pub proof fn law_a_field_lies_inside(before: Seq<u8>, v: nat, n: nat, after: Seq<u8>)
    requires
        v < byte_range(n),
    ensures
        field(before + le_bytes(v, n) + after, before.len() as int, n as int) == Some(v),
        n > 0 ==> field(before, before.len() as int, n as int) is None,
        field(before, -1, n as int) is None,
{
    law_field_reads_back(v, n);
    let b = before + le_bytes(v, n) + after;
    assert(b.subrange(before.len() as int, before.len() + n as int) =~= le_bytes(v, n));
}

} // verus!
