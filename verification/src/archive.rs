//! The boot archive: `newc` entries, written and read back, and the files in which a test image
//! may differ from a release image.

use vstd::prelude::*;

use crate::number;
use crate::table;
use crate::table::Table;
use crate::text;
use crate::wire;

verus! {

/// Eight hexadecimal digits of a number, as bytes.
pub open spec fn hex8(n: nat) -> Seq<u8> {
    let s = number::padded(n, 16, 8);
    Seq::new(8, |i: int| s[i] as u8)
}

/// As many zero bytes as bring a length to a multiple of four.
pub open spec fn padding(len: nat) -> Seq<u8> {
    Seq::new(((4 - len % 4) % 4) as nat, |i: int| 0u8)
}

/// The mode of every file: a regular file that all may read and its owner may write.
pub const FILE_MODE: u64 = 0o100644;

/// The sizes in a header are taken modulo this: they are words of thirty-two bits.
pub const WORD: u64 = 0x1_0000_0000;

/// A size as a header holds it.
#[verifier::opaque]
pub open spec fn word(n: nat) -> nat {
    n % WORD as nat
}

/// The header of an entry: the magic and thirteen fields.
#[verifier::opaque]
pub open spec fn header(ino: nat, size: nat, name_size: nat) -> Seq<u8> {
    seq![0x30u8, 0x37u8, 0x30u8, 0x37u8, 0x30u8, 0x31u8] + hex8(ino) + hex8(FILE_MODE as nat)
        + hex8(0) + hex8(0) + hex8(1) + hex8(0) + hex8(size) + hex8(0) + hex8(0) + hex8(0) + hex8(
        0,
    ) + hex8(name_size) + hex8(0)
}

/// The archive `at` with one more entry: header, name and a zero byte, padding, data, padding.
#[verifier::opaque]
pub open spec fn with_entry(at: Seq<u8>, ino: nat, name: Seq<char>, data: Seq<u8>) -> Seq<u8> {
    let bytes = vstd::utf8::encode_utf8(name);
    let named = at + header(ino, word(data.len()), word(bytes.len() + 1)) + bytes + seq![0u8];
    let filled = named + padding(named.len()) + data;
    filled + padding(filled.len())
}

fn push_bytes(out: &mut Vec<u8>, s: &[u8])
    ensures
        final(out)@ == old(out)@ + s@,
{
    let ghost start = out@;
    let mut i: usize = 0;
    assert(start + s@.take(0) =~= start);
    while i < s.len()
        invariant
            i <= s.len(),
            out@ == start + s@.take(i as int),
        decreases s.len() - i,
    {
        out.push(s[i]);
        i = i + 1;
        assert(start + s@.take(i as int) =~= (start + s@.take(i - 1)).push(s[i - 1]));
    }
    assert(s@.take(i as int) =~= s@);
}

fn push_hex8(out: &mut Vec<u8>, n: u64)
    ensures
        final(out)@ == old(out)@ + hex8(n as nat),
{
    let ghost start = out@;
    let d = number::write_padded(n, 16, 8);
    proof {
        number::law_padded_reads_back(n as nat, 16, 8);
    }
    let mut i: usize = 0;
    assert(start + hex8(n as nat).take(0) =~= start);
    while i < 8
        invariant
            i <= 8,
            d.len() == 8,
            d@ == number::padded(n as nat, 16, 8),
            number::is_numeral(d@, 16),
            out@ == start + hex8(n as nat).take(i as int),
        decreases 8 - i,
    {
        let c: u32 = text::code(d[i]);
        proof {
            assert(number::digit_value(d@[i as int]) < 16);
        }
        out.push(c as u8);
        proof {
            let h = hex8(n as nat);
            assert(h.take(i + 1) =~= h.take(i as int).push(h[i as int]));
            assert(start + h.take(i + 1) =~= (start + h.take(i as int)).push(h[i as int]));
        }
        i = i + 1;
    }
    assert(hex8(n as nat).take(8) =~= hex8(n as nat));
}

fn pad(out: &mut Vec<u8>)
    ensures
        final(out)@ == old(out)@ + padding(old(out)@.len()),
{
    let ghost start = out@;
    let ghost want = padding(start.len());
    let mut k: usize = 0;
    assert(start + want.take(0) =~= start);
    while out.len() % 4 != 0
        invariant
            k <= want.len(),
            want == padding(start.len()),
            out@ == start + want.take(k as int),
        decreases want.len() - k,
    {
        out.push(0);
        k = k + 1;
        assert(want.take(k as int) =~= want.take(k - 1).push(0u8));
        assert(out@ =~= start + want.take(k as int));
    }
    assert(k == want.len());
    assert(want.take(k as int) =~= want);
}

fn push_header(out: &mut Vec<u8>, ino: u32, size: u64, name_size: u64)
    ensures
        final(out)@ == old(out)@ + header(ino as nat, size as nat, name_size as nat),
{
    reveal(header);
    let ghost at = out@;
    let magic: [u8; 6] = [0x30, 0x37, 0x30, 0x37, 0x30, 0x31];
    assert(magic@ =~= seq![0x30u8, 0x37u8, 0x30u8, 0x37u8, 0x30u8, 0x31u8]);
    push_bytes(out, magic.as_slice());
    push_hex8(out, ino as u64);
    push_hex8(out, FILE_MODE);
    push_hex8(out, 0);
    push_hex8(out, 0);
    push_hex8(out, 1);
    push_hex8(out, 0);
    push_hex8(out, size);
    push_hex8(out, 0);
    push_hex8(out, 0);
    push_hex8(out, 0);
    push_hex8(out, 0);
    push_hex8(out, name_size);
    push_hex8(out, 0);
    assert(out@ =~= at + header(ino as nat, size as nat, name_size as nat));
}

/// Appends one entry to the archive.
pub fn cpio_entry(out: &mut Vec<u8>, ino: u32, name: &str, data: &[u8])
    ensures
        final(out)@ == with_entry(old(out)@, ino as nat, name@, data@),
{
    reveal(with_entry);
    let bytes = name.as_bytes();
    let size: u64 = data.len() as u64 % WORD;
    let name_size: u64 = (bytes.len() as u64 % WORD + 1) % WORD;
    assert(size == word(data@.len()) && name_size == word(bytes@.len() + 1)) by {
        reveal(word);
    }
    push_header(out, ino, size, name_size);
    push_bytes(out, bytes);
    out.push(0);
    pad(out);
    push_bytes(out, data);
    pad(out);
}

/// The next multiple of four.
pub open spec fn aligned(n: int) -> int {
    (n + 3) / 4 * 4
}

/// A field of hexadecimal digits; zero where it is none.
pub open spec fn hex_field(b: Seq<u8>) -> int {
    match number::usize_of(wire::latin(b), 16) {
        Some(v) => v as int,
        None => 0,
    }
}

/// An entry stands at `i`: there is room for a header, and the magic is there.
pub open spec fn is_entry(b: Seq<u8>, i: int) -> bool {
    i + 110 <= b.len() && b.subrange(i, i + 6) == seq![
        0x30u8,
        0x37u8,
        0x30u8,
        0x37u8,
        0x30u8,
        0x31u8,
    ]
}

/// The size of the entry's data.
pub open spec fn data_size(b: Seq<u8>, i: int) -> int {
    hex_field(b.subrange(i + 54, i + 62))
}

/// The size of the entry's name, with its zero byte.
pub open spec fn name_size(b: Seq<u8>, i: int) -> int {
    hex_field(b.subrange(i + 94, i + 102))
}

/// Where the entry's name ends, without its zero byte.
pub open spec fn name_end(b: Seq<u8>, i: int) -> int {
    let n = name_size(b, i);
    i + 110 + if n > 0 {
        n - 1
    } else {
        0
    }
}

/// Where the entry's data begins.
pub open spec fn data_start(b: Seq<u8>, i: int) -> int {
    aligned(i + 110 + name_size(b, i))
}

/// Where the entry's data ends, or the archive.
pub open spec fn data_end(b: Seq<u8>, i: int) -> int {
    let e = data_start(b, i) + data_size(b, i);
    if e < b.len() {
        e
    } else {
        b.len() as int
    }
}

/// Where the next entry begins.
pub open spec fn next_entry(b: Seq<u8>, i: int) -> int {
    aligned(data_start(b, i) + data_size(b, i))
}

/// The name that ends an archive.
pub open spec fn trailer() -> Seq<char> {
    "TRAILER!!!"@
}

/// How much of the archive is left.
pub open spec fn room(b: Seq<u8>, i: int) -> nat {
    if i < b.len() {
        (b.len() - i) as nat
    } else {
        0
    }
}

/// The files with one more of them; the trailer is none.
pub open spec fn with_file(
    got: Map<Seq<char>, Seq<u8>>,
    name: Seq<char>,
    data: Seq<u8>,
) -> Map<Seq<char>, Seq<u8>> {
    if name == trailer() {
        got
    } else {
        got.insert(name, data)
    }
}

/// The name of the entry at `i`.
pub open spec fn entry_name(b: Seq<u8>, i: int) -> Seq<char> {
    wire::decoded(b.subrange(i + 110, name_end(b, i)))
}

/// The entry at `i` points outside the archive: its name ends behind the end, or its data begins
/// there. The trailer's data is not looked at.
pub open spec fn is_broken(b: Seq<u8>, i: int) -> bool {
    name_end(b, i) > b.len() || (entry_name(b, i) != trailer() && data_start(b, i) > b.len())
}

/// The files of the archive from `i` on, behind those in `got`: what each name holds, a later
/// entry of a name in place of an earlier. `None`: an entry points outside.
pub open spec fn files(b: Seq<u8>, i: int, got: Map<Seq<char>, Seq<u8>>) -> Option<
    Map<Seq<char>, Seq<u8>>,
>
    decreases room(b, i),
{
    if !is_entry(b, i) || i < 0 {
        Some(got)
    } else if is_broken(b, i) {
        None
    } else {
        files(
            b,
            next_entry(b, i),
            with_file(
                got,
                entry_name(b, i),
                b.subrange(data_start(b, i), data_end(b, i)),
            ),
        )
    }
}

/// The table holds the files.
pub open spec fn holds_files(t: Table<Vec<u8>>, fs: Map<Seq<char>, Seq<u8>>) -> bool {
    &&& forall|i: int|
        0 <= i < t.names().len() ==> fs.contains_key(#[trigger] t.names()[i]) && fs[t.names()[i]]
            == t.values()[i]@
    &&& forall|k: Seq<char>| #[trigger]
        fs.contains_key(k) ==> exists|i: int| 0 <= i < t.names().len() && t.names()[i] == k
}

proof fn lemma_holds(t: Table<Vec<u8>>, m: Map<Seq<char>, Vec<u8>>)
    requires
        t.holds(m),
    ensures
        holds_files(t, contents(m)),
{
    assert forall|k: Seq<char>| #[trigger] contents(m).contains_key(k) implies exists|i: int|
        0 <= i < t.names().len() && t.names()[i] == k by {
        assert(m.contains_key(k));
    }
}

/// What the contents hold.
spec fn contents(m: Map<Seq<char>, Vec<u8>>) -> Map<Seq<char>, Seq<u8>> {
    m.map_values(|v: Vec<u8>| v@)
}

fn read_hex(b: &[u8], at: usize) -> (r: usize)
    requires
        at + 8 <= b.len(),
    ensures
        r == hex_field(b@.subrange(at as int, at + 8)),
{
    let c = wire::latin_of(wire::part(b, at, at + 8));
    match number::parse_usize(c.as_slice(), 16) {
        Some(v) => v,
        None => 0,
    }
}

/// An entry as it is read: its name, its data, which the trailer has none of, and where the next
/// begins.
struct Entry {
    name: String,
    data: Vec<u8>,
    next: u128,
}

fn read_entry(b: &[u8], i: usize) -> (r: Option<Entry>)
    requires
        is_entry(b@, i as int),
    ensures
        match r {
            Some(e) => {
                &&& !is_broken(b@, i as int)
                &&& e.name@ == entry_name(b@, i as int)
                &&& e.name@ != trailer() ==> e.data@ == b@.subrange(
                    data_start(b@, i as int),
                    data_end(b@, i as int),
                )
                &&& e.next == next_entry(b@, i as int)
            },
            None => is_broken(b@, i as int),
        },
{
    let len: usize = b.len();
    assert(b@.len() == len);
    let size: usize = read_hex(b, i + 54);
    let ns: usize = read_hex(b, i + 94);
    let n1: usize = if ns > 0 {
        ns - 1
    } else {
        0
    };
    if n1 > b.len() - i - 110 {
        return None;
    }
    let start: u128 = (i as u128 + 110 + ns as u128 + 3) / 4 * 4;
    let name = wire::lossy(wire::part(b, i + 110, i + 110 + n1));
    let stop: u128 = start + size as u128;
    let next: u128 = (stop + 3) / 4 * 4;
    let c = text::chars_of(name.as_str());
    if text::equals(c.as_slice(), "TRAILER!!!") {
        return Some(Entry { name, data: Vec::new(), next });
    }
    if start > b.len() as u128 {
        return None;
    }
    let end: u128 = if stop < b.len() as u128 {
        stop
    } else {
        b.len() as u128
    };
    let data = wire::copy(wire::part(b, start as usize, end as usize));
    Some(Entry { name, data, next })
}

fn entry_at(b: &[u8], i: usize) -> (r: bool)
    ensures
        r == is_entry(b@, i as int),
{
    let magic: [u8; 6] = [0x30, 0x37, 0x30, 0x37, 0x30, 0x31];
    assert(magic@ =~= seq![0x30u8, 0x37u8, 0x30u8, 0x37u8, 0x30u8, 0x31u8]);
    i <= b.len() && b.len() - i >= 110 && wire::same_bytes(
        wire::part(b, i, i + 6),
        magic.as_slice(),
    )
}

/// The files of an archive, by their names; `None` where an entry points outside it.
pub fn cpio_entries(blob: &[u8]) -> (r: Option<Table<Vec<u8>>>)
    ensures
        match r {
            Some(t) => t.wf() && files(blob@, 0, Map::empty()) is Some && holds_files(
                t,
                files(blob@, 0, Map::empty())->0,
            ),
            None => files(blob@, 0, Map::empty()) is None,
        },
{
    let mut out: Table<Vec<u8>> = Table::new();
    let ghost mut m: Map<Seq<char>, Vec<u8>> = Map::empty();
    let mut i: usize = 0;
    assert(contents(m) =~= Map::empty());
    while entry_at(blob, i)
        invariant
            out.wf(),
            out.holds(m),
            files(blob@, 0, Map::empty()) == files(blob@, i as int, contents(m)),
        decreases room(blob@, i as int),
    {
        let e = match read_entry(blob, i) {
            Some(e) => e,
            None => {
                return None;
            },
        };
        let Entry { name, data, next } = e;
        let nc = text::chars_of(name.as_str());
        if !text::equals(nc.as_slice(), "TRAILER!!!") {
            let ghost nm = name@;
            let ghost dv = data;
            let ghost was = m;
            out.insert(name, data);
            proof {
                m = was.insert(nm, dv);
                assert(out.holds(was.insert(nm, dv)));
                assert(contents(m) =~= contents(was).insert(nm, dv@));
            }
        }
        if next > blob.len() as u128 {
            assert(files(blob@, next as int, contents(m)) == Some(contents(m)));
            proof {
                lemma_holds(out, m);
            }
            return Some(out);
        }
        i = next as usize;
    }
    assert(files(blob@, i as int, contents(m)) == Some(contents(m)));
    proof {
        lemma_holds(out, m);
    }
    Some(out)
}

/// A hexadecimal field reads back as it was written.
proof fn lemma_hex8(n: nat)
    requires
        n <= u32::MAX,
    ensures
        hex8(n).len() == 8,
        hex_field(hex8(n)) == n,
{
    let s = number::padded(n, 16, 8);
    assert(vstd::arithmetic::power::pow(16, 8) == 0x1_0000_0000) by {
        reveal(vstd::arithmetic::power::pow);
        reveal_with_fuel(vstd::arithmetic::power::pow, 9);
    }
    number::law_padded_reads_back(n, 16, 8);
    let l = wire::latin(hex8(n));
    assert forall|i: int| 0 <= i < 8 implies l[i] == s[i] by {
        assert(number::digit_value(s[i]) < 16);
    }
    assert(l =~= s);
    assert(number::digit_value(s[0]) < 16);
    assert(s[0] != '+');
}

/// What an entry adds behind `len` bytes.
pub open spec fn added(len: nat, ino: nat, name: Seq<char>, data: Seq<u8>) -> Seq<u8> {
    let bytes = vstd::utf8::encode_utf8(name);
    let h = header(ino, word(data.len()), word(bytes.len() + 1)) + bytes + seq![0u8];
    let filled = h + padding(len + h.len()) + data;
    filled + padding(len + filled.len())
}

proof fn lemma_added(at: Seq<u8>, ino: nat, name: Seq<char>, data: Seq<u8>)
    ensures
        with_entry(at, ino, name, data) == at + added(at.len(), ino, name, data),
{
    reveal(with_entry);
    assert(with_entry(at, ino, name, data) =~= at + added(at.len(), ino, name, data));
}

/// The fields of a header stand where they are read.
proof fn lemma_header(ino: nat, size: nat, ns: nat)
    ensures
        header(ino, size, ns).len() == 110,
        header(ino, size, ns).subrange(0, 6) == seq![
            0x30u8,
            0x37u8,
            0x30u8,
            0x37u8,
            0x30u8,
            0x31u8,
        ],
        header(ino, size, ns).subrange(54, 62) == hex8(size),
        header(ino, size, ns).subrange(94, 102) == hex8(ns),
{
    reveal(header);
    let h = header(ino, size, ns);
    assert(h.subrange(0, 6) =~= seq![0x30u8, 0x37u8, 0x30u8, 0x37u8, 0x30u8, 0x31u8]);
    assert(h.subrange(54, 62) =~= hex8(size));
    assert(h.subrange(94, 102) =~= hex8(ns));
}

/// The parts of an entry behind `at`: where each begins is the length of those before it.
proof fn lemma_entry_parts(at: Seq<u8>, ino: nat, name: Seq<char>, data: Seq<u8>)
    requires
        data.len() <= u32::MAX,
        vstd::utf8::encode_utf8(name).len() < u32::MAX,
    ensures
        ({
            let bytes = vstd::utf8::encode_utf8(name);
            let ns = bytes.len() + 1;
            let p1 = padding(at.len() + 110 + ns);
            let p2 = padding((at.len() + 110 + ns + p1.len() + data.len()) as nat);
            with_entry(at, ino, name, data) == at + header(ino, data.len(), ns) + bytes + seq![0u8]
                + p1 + data + p2
        }),
{
    reveal(with_entry);
    let bytes = vstd::utf8::encode_utf8(name);
    let ns = bytes.len() + 1;
    let h = header(ino, data.len(), ns);
    assert(word(data.len()) == data.len() && word(ns) == ns) by {
        reveal(word);
    }
    lemma_header(ino, data.len(), ns);
    let p1 = padding(at.len() + 110 + ns);
    let named = at + h + bytes + seq![0u8];
    assert(named.len() == at.len() + 110 + ns);
    assert((named + p1 + data).len() == at.len() + 110 + ns + p1.len() + data.len());
}

/// Where the parts of an entry are found again, whatever stands before and behind it.
proof fn lemma_parts_found(at: Seq<u8>, h: Seq<u8>, bytes: Seq<u8>, p1: Seq<u8>, data: Seq<u8>, z: Seq<u8>)
    requires
        h.len() == 110,
    ensures
        ({
            let b = at + h + bytes + seq![0u8] + p1 + data + z;
            let i = at.len() as int;
            let start = i + 110 + bytes.len() + 1 + p1.len();
            &&& b.len() == start + data.len() + z.len()
            &&& b.subrange(i, i + 6) == h.subrange(0, 6)
            &&& b.subrange(i + 54, i + 62) == h.subrange(54, 62)
            &&& b.subrange(i + 94, i + 102) == h.subrange(94, 102)
            &&& b.subrange(i + 110, i + 110 + bytes.len()) == bytes
            &&& b.subrange(start, start + data.len()) == data
        }),
{
    let b = at + h + bytes + seq![0u8] + p1 + data + z;
    let r1 = bytes + seq![0u8] + p1 + data + z;
    assert(b =~= at + h + r1);
    lemma_within(at, h, r1, 0, 6);
    lemma_within(at, h, r1, 54, 62);
    lemma_within(at, h, r1, 94, 102);
    let r2 = seq![0u8] + p1 + data + z;
    assert(b =~= (at + h) + bytes + r2);
    lemma_within(at + h, bytes, r2, 0, bytes.len() as int);
    assert(bytes.subrange(0, bytes.len() as int) =~= bytes);
    let x = at + h + bytes + seq![0u8] + p1;
    assert(b =~= x + data + z);
    lemma_within(x, data, z, 0, data.len() as int);
    assert(data.subrange(0, data.len() as int) =~= data);
}

/// An entry that was written is read, whatever stands before and behind it.
proof fn lemma_entry_reads_back(
    at: Seq<u8>,
    ino: nat,
    name: Seq<char>,
    data: Seq<u8>,
    rest: Seq<u8>,
    got: Map<Seq<char>, Seq<u8>>,
)
    requires
        data.len() <= u32::MAX,
        vstd::utf8::encode_utf8(name).len() < u32::MAX,
    ensures
        files(with_entry(at, ino, name, data) + rest, at.len() as int, got) == files(
            with_entry(at, ino, name, data) + rest,
            with_entry(at, ino, name, data).len() as int,
            with_file(got, name, data),
        ),
{
    let bytes = vstd::utf8::encode_utf8(name);
    let ns = bytes.len() + 1;
    let h = header(ino, data.len(), ns);
    let b = with_entry(at, ino, name, data) + rest;
    let i = at.len() as int;
    lemma_header(ino, data.len(), ns);
    lemma_hex8(data.len());
    lemma_hex8(ns);
    let p1 = padding(at.len() + 110 + ns);
    let p2 = padding((at.len() + 110 + ns + p1.len() + data.len()) as nat);
    lemma_entry_parts(at, ino, name, data);
    lemma_parts_found(at, h, bytes, p1, data, p2 + rest);
    assert(b =~= at + h + bytes + seq![0u8] + p1 + data + (p2 + rest));
    lemma_entry_places(b, i, ns as int, data.len() as int);
    wire::law_encoded_text_arrives(name);
}

proof fn lemma_within(x: Seq<u8>, y: Seq<u8>, z: Seq<u8>, a: int, b: int)
    requires
        0 <= a <= b <= y.len(),
    ensures
        (x + y + z).subrange(x.len() + a, x.len() + b) == y.subrange(a, b),
{
    assert((x + y + z).subrange(x.len() + a, x.len() + b) =~= y.subrange(a, b));
}

/// Where the parts of an entry stand, by the sizes in its header.
proof fn lemma_entry_places(b: Seq<u8>, i: int, ns: int, size: int)
    requires
        0 <= i,
        ns >= 1,
        size >= 0,
        name_size(b, i) == ns,
        data_size(b, i) == size,
        ({
            let p1 = padding((i + 110 + ns) as nat).len();
            let p2 = padding((i + 110 + ns + p1 + size) as nat).len();
            b.len() >= i + 110 + ns + p1 + size + p2
        }),
    ensures
        ({
            let p1 = padding((i + 110 + ns) as nat).len();
            let p2 = padding((i + 110 + ns + p1 + size) as nat).len();
            &&& name_end(b, i) == i + 110 + ns - 1
            &&& data_start(b, i) == i + 110 + ns + p1
            &&& data_end(b, i) == i + 110 + ns + p1 + size
            &&& next_entry(b, i) == i + 110 + ns + p1 + size + p2
            &&& !is_broken(b, i)
        }),
{
    let p1 = padding((i + 110 + ns) as nat).len();
    lemma_aligned(i + 110 + ns);
    lemma_aligned(i + 110 + ns + p1 + size);
}

/// Padding brings a length to the next multiple of four.
proof fn lemma_aligned(n: int)
    requires
        0 <= n,
    ensures
        aligned(n) == n + padding(n as nat).len(),
{
}

/// An archive of entries: inode, name and data of each.
pub open spec fn archive(es: Seq<(nat, Seq<char>, Seq<u8>)>) -> Seq<u8>
    decreases es.len(),
{
    if es.len() == 0 {
        Seq::empty()
    } else {
        let e = es.last();
        with_entry(archive(es.drop_last()), e.0, e.1, e.2)
    }
}

/// The files among the entries.
pub open spec fn entry_files(es: Seq<(nat, Seq<char>, Seq<u8>)>) -> Map<Seq<char>, Seq<u8>>
    decreases es.len(),
{
    if es.len() == 0 {
        Map::empty()
    } else {
        with_file(entry_files(es.drop_last()), es.last().1, es.last().2)
    }
}

/// The sizes of an entry fit their fields.
pub open spec fn fits(e: (nat, Seq<char>, Seq<u8>)) -> bool {
    e.2.len() <= u32::MAX && vstd::utf8::encode_utf8(e.1).len() < u32::MAX
}

proof fn lemma_archive(es: Seq<(nat, Seq<char>, Seq<u8>)>, rest: Seq<u8>)
    requires
        forall|i: int| 0 <= i < es.len() ==> fits(#[trigger] es[i]),
    ensures
        files(archive(es) + rest, 0, Map::empty()) == files(
            archive(es) + rest,
            archive(es).len() as int,
            entry_files(es),
        ),
    decreases es.len(),
{
    if es.len() > 0 {
        let init = es.drop_last();
        let e = es.last();
        let at = archive(init);
        let tail = added(at.len(), e.0, e.1, e.2);
        assert(fits(es[es.len() - 1]));
        lemma_added(at, e.0, e.1, e.2);
        assert forall|i: int| 0 <= i < init.len() implies fits(#[trigger] init[i]) by {
            assert(init[i] == es[i]);
        }
        lemma_archive(init, tail + rest);
        assert(archive(es) + rest =~= at + (tail + rest));
        lemma_entry_reads_back(at, e.0, e.1, e.2, rest, entry_files(init));
    }
}

/// Reading an archive gives back what was written: every file but the trailer, under its name and
/// with its data, the later where a name was written twice.
pub proof fn law_archive_reads_back(es: Seq<(nat, Seq<char>, Seq<u8>)>)
    requires
        forall|i: int| 0 <= i < es.len() ==> fits(#[trigger] es[i]),
    ensures
        files(archive(es), 0, Map::empty()) == Some(entry_files(es)),
{
    lemma_archive(es, Seq::empty());
    assert(archive(es) + Seq::<u8>::empty() =~= archive(es));
}

/// The files in which a test image may differ from a release image.
pub open spec fn may_differ(name: Seq<char>) -> bool {
    name == "etc/profiles/system.toml"@ || name == "etc/services.toml"@ || name == "sbin/init"@
}

/// The names of which `p` holds, in order.
pub open spec fn kept(names: Seq<Seq<char>>, p: spec_fn(Seq<char>) -> bool) -> Seq<Seq<char>>
    decreases names.len(),
{
    if names.len() == 0 {
        Seq::empty()
    } else if p(names.last()) {
        kept(names.drop_last(), p).push(names.last())
    } else {
        kept(names.drop_last(), p)
    }
}

/// How a test image compares with a release image.
#[derive(Debug)]
pub enum Images {
    /// They do not hold the same files: what only the release image has, and only the test image.
    FilesDiffer { only_release: Vec<String>, only_test: Vec<String> },
    /// They differ in these files, which must be the same.
    Unexpected(Vec<String>),
    /// They hold this many files and differ in these, as they may.
    Alike { files: usize, differ: Vec<String> },
}

/// The name is in the table.
pub open spec fn names_file(t: Table<Vec<u8>>, k: Seq<char>) -> bool {
    t.names().contains(k)
}

/// The name is in both tables, with different data.
pub open spec fn differs(a: Table<Vec<u8>>, b: Table<Vec<u8>>, k: Seq<char>) -> bool {
    exists|i: int, j: int|
        0 <= i < a.names().len() && 0 <= j < b.names().len() && #[trigger] a.names()[i] == k
            && #[trigger] b.names()[j] == k && a.values()[i]@ != b.values()[j]@
}

fn absent(a: &Table<Vec<u8>>, b: &Table<Vec<u8>>) -> (r: Vec<String>)
    requires
        a.wf(),
        b.wf(),
    ensures
        text::strs(r@) == kept(a.names(), |k: Seq<char>| !names_file(*b, k)),
{
    let ghost p = |k: Seq<char>| !names_file(*b, k);
    let ghost names = a.names();
    let mut out: Vec<String> = Vec::new();
    let mut i: usize = 0;
    assert(text::strs(out@) =~= kept(names.take(0), p));
    while i < a.len()
        invariant
            i <= names.len(),
            names == a.names(),
            a.wf(),
            b.wf(),
            p == (|k: Seq<char>| !names_file(*b, k)),
            text::strs(out@) == kept(names.take(i as int), p),
        decreases names.len() - i,
    {
        assert(names.take(i + 1).drop_last() =~= names.take(i as int));
        assert(names.take(i + 1).last() == names[i as int]);
        let c = text::chars_of(a.name(i));
        if b.get(c.as_slice()).is_none() {
            assert(!names_file(*b, c@));
            let s = text::string_of(c.as_slice());
            proof {
                text::lemma_strs_push(out@, s);
            }
            out.push(s);
        } else {
            assert(names_file(*b, c@));
        }
        i = i + 1;
    }
    assert(names.take(i as int) =~= names);
    out
}

fn different(a: &Table<Vec<u8>>, b: &Table<Vec<u8>>) -> (r: Vec<String>)
    requires
        a.wf(),
        b.wf(),
    ensures
        text::strs(r@) == kept(a.names(), |k: Seq<char>| differs(*a, *b, k)),
{
    let ghost p = |k: Seq<char>| differs(*a, *b, k);
    let ghost names = a.names();
    let mut out: Vec<String> = Vec::new();
    let mut i: usize = 0;
    assert(text::strs(out@) =~= kept(names.take(0), p));
    while i < a.len()
        invariant
            i <= names.len(),
            names == a.names(),
            a.wf(),
            b.wf(),
            p == (|k: Seq<char>| differs(*a, *b, k)),
            text::strs(out@) == kept(names.take(i as int), p),
        decreases names.len() - i,
    {
        assert(names.take(i + 1).drop_last() =~= names.take(i as int));
        assert(names.take(i + 1).last() == names[i as int]);
        let c = text::chars_of(a.name(i));
        let same = match b.get(c.as_slice()) {
            Some(v) => wire::same_bytes(a.value(i).as_slice(), v.as_slice()),
            None => true,
        };
        proof {
            lemma_differs(*a, *b, i as int);
        }
        if !same {
            let s = text::string_of(c.as_slice());
            proof {
                text::lemma_strs_push(out@, s);
            }
            out.push(s);
        }
        i = i + 1;
    }
    assert(names.take(i as int) =~= names);
    out
}

/// A name stands once in a table, so it differs exactly where its two values do.
proof fn lemma_differs(a: Table<Vec<u8>>, b: Table<Vec<u8>>, i: int)
    requires
        a.wf(),
        b.wf(),
        0 <= i < a.names().len(),
    ensures
        !b.names().contains(a.names()[i]) ==> !differs(a, b, a.names()[i]),
        forall|j: int|
            0 <= j < b.names().len() && #[trigger] b.names()[j] == a.names()[i] ==> (differs(
                a,
                b,
                a.names()[i],
            ) <==> a.values()[i]@ != b.values()[j]@),
{
    let k = a.names()[i];
    assert forall|j: int| 0 <= j < b.names().len() && #[trigger] b.names()[j] == k implies (differs(
        a,
        b,
        k,
    ) <==> a.values()[i]@ != b.values()[j]@) by {
        if differs(a, b, k) {
            let (x, y) = choose|x: int, y: int|
                0 <= x < a.names().len() && 0 <= y < b.names().len() && #[trigger] a.names()[x] == k
                    && #[trigger] b.names()[y] == k && a.values()[x]@ != b.values()[y]@;
            table::lemma_total(k, k);
            assert(x == i);
            assert(y == j);
        }
    }
}

/// What two images come to, over the names that are told.
pub enum ImagesView {
    FilesDiffer(Seq<Seq<char>>, Seq<Seq<char>>),
    Unexpected(Seq<Seq<char>>),
    Alike(nat, Seq<Seq<char>>),
}

/// What is told of two images.
pub open spec fn images_view(r: Images) -> ImagesView {
    match r {
        Images::FilesDiffer { only_release, only_test } => ImagesView::FilesDiffer(
            text::strs(only_release@),
            text::strs(only_test@),
        ),
        Images::Unexpected(v) => ImagesView::Unexpected(text::strs(v@)),
        Images::Alike { files, differ } => ImagesView::Alike(files as nat, text::strs(differ@)),
    }
}

/// What two images come to.
pub open spec fn images(release: Table<Vec<u8>>, test: Table<Vec<u8>>) -> ImagesView {
    let lost = kept(release.names(), |k: Seq<char>| !names_file(test, k));
    let extra = kept(test.names(), |k: Seq<char>| !names_file(release, k));
    let d = kept(release.names(), |k: Seq<char>| differs(release, test, k));
    let bad = kept(d, |k: Seq<char>| !may_differ(k));
    if lost.len() > 0 || extra.len() > 0 {
        ImagesView::FilesDiffer(lost, extra)
    } else if bad.len() > 0 {
        ImagesView::Unexpected(bad)
    } else {
        ImagesView::Alike(release.names().len(), d)
    }
}

/// Compares a test image's files with a release image's.
pub fn compare_images(release: &Table<Vec<u8>>, test: &Table<Vec<u8>>) -> (r: Images)
    requires
        release.wf(),
        test.wf(),
    ensures
        images_view(r) == images(*release, *test),
        ({
            let lost = kept(release.names(), |k: Seq<char>| !names_file(*test, k));
            let extra = kept(test.names(), |k: Seq<char>| !names_file(*release, k));
            let d = kept(release.names(), |k: Seq<char>| differs(*release, *test, k));
            let bad = kept(d, |k: Seq<char>| !may_differ(k));
            match r {
                Images::FilesDiffer { only_release, only_test } => {
                    &&& lost.len() > 0 || extra.len() > 0
                    &&& text::strs(only_release@) == lost
                    &&& text::strs(only_test@) == extra
                },
                Images::Unexpected(v) => {
                    &&& lost.len() == 0 && extra.len() == 0
                    &&& bad.len() > 0
                    &&& text::strs(v@) == bad
                },
                Images::Alike { files, differ } => {
                    &&& lost.len() == 0 && extra.len() == 0
                    &&& bad.len() == 0
                    &&& files == release.names().len()
                    &&& text::strs(differ@) == d
                },
            }
        }),
{
    let only_release = absent(release, test);
    let only_test = absent(test, release);
    assert(text::strs(only_release@).len() == only_release.len());
    assert(text::strs(only_test@).len() == only_test.len());
    if only_release.len() > 0 || only_test.len() > 0 {
        return Images::FilesDiffer { only_release, only_test };
    }
    let differ = different(release, test);
    let ghost d = text::strs(differ@);
    let ghost p = |k: Seq<char>| !may_differ(k);
    let mut bad: Vec<String> = Vec::new();
    let mut i: usize = 0;
    assert(text::strs(bad@) =~= kept(d.take(0), p));
    while i < differ.len()
        invariant
            i <= differ.len(),
            d == text::strs(differ@),
            p == (|k: Seq<char>| !may_differ(k)),
            text::strs(bad@) == kept(d.take(i as int), p),
        decreases differ.len() - i,
    {
        assert(d.take(i + 1).drop_last() =~= d.take(i as int));
        assert(d.take(i + 1).last() == differ[i as int]@);
        let c = text::chars_of(differ[i].as_str());
        if !text::equals(c.as_slice(), "etc/profiles/system.toml") && !text::equals(
            c.as_slice(),
            "etc/services.toml",
        ) && !text::equals(c.as_slice(), "sbin/init") {
            let s = text::string_of(c.as_slice());
            proof {
                text::lemma_strs_push(bad@, s);
            }
            bad.push(s);
        }
        i = i + 1;
    }
    assert(d.take(i as int) =~= d);
    assert(text::strs(bad@).len() == bad.len());
    if bad.len() > 0 {
        Images::Unexpected(bad)
    } else {
        Images::Alike { files: release.len(), differ }
    }
}

/// What is kept of the names is exactly what `p` holds of.
proof fn lemma_kept(names: Seq<Seq<char>>, p: spec_fn(Seq<char>) -> bool, k: Seq<char>)
    ensures
        kept(names, p).contains(k) <==> names.contains(k) && p(k),
    decreases names.len(),
{
    if names.len() > 0 {
        let init = names.drop_last();
        lemma_kept(init, p, k);
        let front = kept(init, p);
        if kept(names, p).contains(k) {
            let i = choose|i: int| 0 <= i < kept(names, p).len() && kept(names, p)[i] == k;
            if i < front.len() {
                assert(front[i] == k);
            }
            if init.contains(k) {
                let j = choose|j: int| 0 <= j < init.len() && init[j] == k;
                assert(names[j] == k);
            } else {
                assert(names[names.len() - 1] == k);
            }
        }
        if names.contains(k) && p(k) {
            let j = choose|j: int| 0 <= j < names.len() && names[j] == k;
            if j < init.len() {
                assert(init[j] == k);
                let i = choose|i: int| 0 <= i < front.len() && front[i] == k;
                assert(kept(names, p)[i] == k);
            } else {
                assert(kept(names, p)[front.len() as int] == k);
            }
        }
    }
}

/// Two images pass only where they hold the same names, and where a file that may not differ is
/// the same in both.
pub proof fn law_passing_images_differ_only_where_allowed(
    release: Table<Vec<u8>>,
    test: Table<Vec<u8>>,
    k: Seq<char>,
)
    requires
        kept(release.names(), |x: Seq<char>| !names_file(test, x)).len() == 0,
        kept(test.names(), |x: Seq<char>| !names_file(release, x)).len() == 0,
        kept(
            kept(release.names(), |x: Seq<char>| differs(release, test, x)),
            |x: Seq<char>| !may_differ(x),
        ).len() == 0,
    ensures
        names_file(release, k) <==> names_file(test, k),
        names_file(release, k) && !may_differ(k) ==> !differs(release, test, k),
{
    let a = |x: Seq<char>| !names_file(test, x);
    let b = |x: Seq<char>| !names_file(release, x);
    let d = |x: Seq<char>| differs(release, test, x);
    let m = |x: Seq<char>| !may_differ(x);
    lemma_kept(release.names(), a, k);
    lemma_kept(test.names(), b, k);
    lemma_kept(release.names(), d, k);
    lemma_kept(kept(release.names(), d), m, k);
}

/// A name is kept exactly where it is among the names and has the property.
pub proof fn law_names_are_kept_by_their_property(names: Seq<Seq<char>>, p: spec_fn(Seq<char>) -> bool, x: Seq<char>)
    ensures
        kept(names, p).contains(x) <==> names.contains(x) && p(x),
    decreases names.len(),
{
    if names.len() > 0 {
        let init = names.drop_last();
        let last = names.last();
        let front = kept(init, p);
        law_names_are_kept_by_their_property(init, p, x);
        assert(names[names.len() - 1] == last);
        if init.contains(x) {
            let k = init.index_of(x);
            assert(names[k] == x);
        }
        if names.contains(x) && x != last {
            let k = names.index_of(x);
            assert(init[k] == x);
        }
        if p(last) {
            let all = front.push(last);
            assert(all[front.len() as int] == last);
            if front.contains(x) {
                let k = front.index_of(x);
                assert(all[k] == x);
            }
            if all.contains(x) && x != last {
                let k = all.index_of(x);
                assert(front[k] == x);
            }
        }
    }
}

/// Three files may differ between the images, and no other: the profile, the services and the first
/// program.
pub proof fn law_three_files_may_differ(name: Seq<char>)
    ensures
        may_differ(name) <==> seq![
            "etc/profiles/system.toml"@,
            "etc/services.toml"@,
            "sbin/init"@,
        ].contains(name),
{
    let all = seq!["etc/profiles/system.toml"@, "etc/services.toml"@, "sbin/init"@];
    assert(all[0] == "etc/profiles/system.toml"@ && all[1] == "etc/services.toml"@ && all[2]
        == "sbin/init"@);
}

/// An archive's parts are padded to multiples of four, with less than four bytes.
pub proof fn law_parts_are_padded_to_words(len: nat)
    ensures
        (len + padding(len).len()) % 4 == 0,
        padding(len).len() < 4,
        aligned(len as int) == len + padding(len).len(),
        forall|i: int| 0 <= i < padding(len).len() ==> padding(len)[i] == 0,
{
}

/// Images are alike exactly where each has every file of the other and no file differs but one of the
/// three that may; a name that only one has is told as that one's, and a file that may not differ and
/// does is told.
pub proof fn law_images_are_alike_file_by_file(release: Table<Vec<u8>>, test: Table<Vec<u8>>, x: Seq<char>)
    ensures
        images(release, test) is Alike ==> (release.names().contains(x) <==> test.names().contains(x))
            && (differs(release, test, x) ==> x == "etc/profiles/system.toml"@ || x
            == "etc/services.toml"@ || x == "sbin/init"@),
        images(release, test) matches ImagesView::FilesDiffer(a, b) ==> (a.contains(x)
            <==> release.names().contains(x) && !test.names().contains(x)) && (b.contains(x)
            <==> test.names().contains(x) && !release.names().contains(x)) && (a.len() > 0 || b.len()
            > 0),
        images(release, test) matches ImagesView::Unexpected(v) ==> v.len() > 0 && (v.contains(x)
            <==> differs(release, test, x) && x != "etc/profiles/system.toml"@ && x
            != "etc/services.toml"@ && x != "sbin/init"@),
{
    let lost = |k: Seq<char>| !names_file(test, k);
    let extra = |k: Seq<char>| !names_file(release, k);
    let diff = |k: Seq<char>| differs(release, test, k);
    let bad = |k: Seq<char>| !may_differ(k);
    law_names_are_kept_by_their_property(release.names(), lost, x);
    law_names_are_kept_by_their_property(test.names(), extra, x);
    law_names_are_kept_by_their_property(release.names(), diff, x);
    law_names_are_kept_by_their_property(kept(release.names(), diff), bad, x);
    if differs(release, test, x) {
        let (i, j) = choose|i: int, j: int|
            0 <= i < release.names().len() && 0 <= j < test.names().len()
                && #[trigger] release.names()[i] == x && #[trigger] test.names()[j] == x
                && release.values()[i]@ != test.values()[j]@;
        assert(release.names().contains(x));
    }
}

} // verus!
