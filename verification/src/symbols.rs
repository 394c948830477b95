//! The kernel image's function symbols, and what a machine address is called.

use vstd::prelude::*;

use crate::number;
use crate::text;
use crate::wire;

verus! {

/// A function symbol.
#[derive(Debug)]
pub struct ElfSym {
    /// Where the function begins.
    pub addr: u64,
    /// How many bytes it has; zero where the image does not say.
    pub size: u64,
    /// Its name as the image spells it.
    pub name: String,
}

/// What an [`ElfSym`] holds.
pub struct Sym {
    pub addr: u64,
    pub size: u64,
    pub name: Seq<char>,
}

impl View for ElfSym {
    type V = Sym;

    open spec fn view(&self) -> Sym {
        Sym { addr: self.addr, size: self.size, name: self.name@ }
    }
}

/// What the symbols hold.
pub open spec fn syms(v: Seq<ElfSym>) -> Seq<Sym> {
    v.map_values(|s: ElfSym| s@)
}

/// In order of their addresses.
pub open spec fn by_address(s: Seq<Sym>) -> bool {
    forall|i: int, j: int| 0 <= i <= j < s.len() ==> s[i].addr <= s[j].addr
}

/// The symbols at one address, in their order.
pub open spec fn at_address(s: Seq<Sym>, a: u64) -> Seq<Sym> {
    s.filter(|x: Sym| x.addr == a)
}

/// `a` holds the symbols of `b` in order of their addresses, those at one address as `b` has them.
pub open spec fn sorted_from(a: Seq<Sym>, b: Seq<Sym>) -> bool {
    &&& by_address(a)
    &&& a.len() == b.len()
    &&& forall|x: u64| #[trigger] at_address(a, x) == at_address(b, x)
}

/// `<[ElfSym]>::sort_by_key` by address: a stable sort, which reorders and changes nothing else.
#[verifier::external_body]
fn sort_by_address(v: &mut Vec<ElfSym>)
    ensures
        sorted_from(syms(final(v)@), syms(old(v)@)),
{
    v.sort_by_key(|s| s.addr);
}

/// Why an image's symbols were not read.
#[derive(Debug, Clone, Copy, PartialEq, Eq, Structural)]
pub enum ElfError {
    /// The file is no 64-bit ELF image.
    NotElf64,
    /// A header or a name that the image points at lies outside it.
    OutOfBounds,
}

/// The file is a 64-bit ELF image.
pub open spec fn is_elf64(b: Seq<u8>) -> bool {
    b.len() >= 64 && b[0] == 0x7f && b[1] == 0x45 && b[2] == 0x4c && b[3] == 0x46 && b[4] == 2
}

/// The first zero byte from `i` on.
pub open spec fn nul_from(b: Seq<u8>, i: int) -> Option<int>
    decreases b.len() - i,
{
    if i < 0 || i >= b.len() {
        None
    } else if b[i] == 0 {
        Some(i)
    } else {
        nul_from(b, i + 1)
    }
}

/// The name at `o`: up to the next zero byte; empty where none follows, and none outside the image.
pub open spec fn name_at(b: Seq<u8>, o: int) -> Option<Seq<char>> {
    if 0 <= o <= b.len() {
        match nul_from(b, o) {
            Some(e) => Some(wire::decoded(b.subrange(o, e))),
            None => Some(wire::decoded(b.subrange(o, o))),
        }
    } else {
        None
    }
}

/// The function symbols among the entries `j..n` of a table at `off` whose names are at `strs`.
/// The table ends early where an entry does not lie inside the image. `None`: a name lies outside.
pub open spec fn table_syms(b: Seq<u8>, off: int, n: int, strs: int, j: int) -> Option<Seq<Sym>>
    decreases n - j,
{
    let e = off + j * 24;
    if j >= n || e + 24 > b.len() {
        Some(Seq::empty())
    } else {
        let addr = wire::le(b.subrange(e + 8, e + 16));
        let size = wire::le(b.subrange(e + 16, e + 24));
        let name = name_at(b, strs + wire::le(b.subrange(e, e + 4)));
        if b[e + 4] % 16 != 2 || addr == 0 {
            table_syms(b, off, n, strs, j + 1)
        } else if name is None {
            None
        } else {
            match table_syms(b, off, n, strs, j + 1) {
                Some(rest) => Some(
                    seq![Sym { addr: addr as u64, size: size as u64, name: name->0 }] + rest,
                ),
                None => None,
            }
        }
    }
}

/// The function symbols of the section whose header is at `sh`, in an image whose headers are
/// `ent` bytes each from `shoff` on. `None`: something lies outside the image.
pub open spec fn section_syms(b: Seq<u8>, shoff: int, ent: int, sh: int) -> Option<Seq<Sym>> {
    match wire::field(b, sh + 4, 4) {
        None => None,
        Some(kind) => if kind != 2 {
            Some(Seq::empty())
        } else {
            match (
                wire::field(b, sh + 0x18, 8),
                wire::field(b, sh + 0x20, 8),
                wire::field(b, sh + 0x28, 4),
            ) {
                (Some(off), Some(size), Some(link)) => match wire::field(
                    b,
                    shoff + link * ent + 0x18,
                    8,
                ) {
                    Some(strs) => table_syms(b, off as int, (size / 24) as int, strs as int, 0),
                    None => None,
                },
                _ => None,
            }
        },
    }
}

/// The function symbols of the sections `i..n`. The sections end early where a header does not lie
/// inside the image.
pub open spec fn sections_syms(b: Seq<u8>, shoff: int, ent: int, n: int, i: int) -> Option<Seq<Sym>>
    decreases n - i,
{
    let sh = shoff + i * ent;
    if i >= n || sh + ent > b.len() {
        Some(Seq::empty())
    } else {
        match section_syms(b, shoff, ent, sh) {
            None => None,
            Some(s) => match sections_syms(b, shoff, ent, n, i + 1) {
                None => None,
                Some(rest) => Some(s + rest),
            },
        }
    }
}

/// The function symbols of an image, in the image's order.
pub open spec fn image_syms(b: Seq<u8>) -> Option<Seq<Sym>> {
    sections_syms(
        b,
        wire::le(b.subrange(0x28, 0x30)) as int,
        wire::le(b.subrange(0x3A, 0x3C)) as int,
        wire::le(b.subrange(0x3C, 0x3E)) as int,
        0,
    )
}

/// `front` followed by `rest`.
spec fn behind(front: Seq<Sym>, rest: Option<Seq<Sym>>) -> Option<Seq<Sym>> {
    match rest {
        Some(r) => Some(front + r),
        None => None,
    }
}

proof fn lemma_syms_push(v: Seq<ElfSym>, x: ElfSym)
    ensures
        syms(v.push(x)) == syms(v).push(x@),
{
    assert(syms(v.push(x)) =~= syms(v).push(x@));
}

fn read_name(b: &[u8], o: u128) -> (r: Option<String>)
    ensures
        match r {
            Some(s) => name_at(b@, o as int) == Some(s@),
            None => name_at(b@, o as int) is None,
        },
{
    if o > b.len() as u128 {
        return None;
    }
    let start: usize = o as usize;
    let mut i: usize = start;
    while i < b.len() && b[i] != 0
        invariant
            start <= i <= b.len(),
            nul_from(b@, start as int) == nul_from(b@, i as int),
        decreases b.len() - i,
    {
        i = i + 1;
    }
    if i < b.len() {
        Some(wire::lossy(wire::part(b, start, i)))
    } else {
        Some(wire::lossy(wire::part(b, start, start)))
    }
}

/// Appends the function symbols of a table; `false` where a name lies outside the image.
fn read_table(b: &[u8], off: u64, size: u64, strs: u64, out: &mut Vec<ElfSym>) -> (ok: bool)
    ensures
        ({
            let t = table_syms(b@, off as int, (size / 24) as int, strs as int, 0);
            &&& ok == (t is Some)
            &&& ok ==> syms(final(out)@) == syms(old(out)@) + t->0
        }),
{
    let n: u64 = size / 24;
    let mut j: u64 = 0;
    let mut e: u128 = off as u128;
    let ghost all = table_syms(b@, off as int, n as int, strs as int, 0);
    let ghost front = syms(out@);
    proof {
        match all {
            Some(t) => {
                assert(behind(front, Some(t)) == Some(front + t));
            },
            None => {},
        }
    }
    while j < n && e + 24 <= b.len() as u128
        invariant
            j <= n,
            n == size / 24,
            e == off + j * 24,
            e <= u64::MAX + 24 * u64::MAX,
            behind(syms(out@), table_syms(b@, off as int, n as int, strs as int, j as int))
                == behind(front, all),
            all == table_syms(b@, off as int, n as int, strs as int, 0),
            front == syms(old(out)@),
        decreases n - j,
    {
        let p: usize = e as usize;
        let addr: u64 = match wire::u64_at(b, p + 8) {
            Some(v) => v,
            None => 0,
        };
        let sz: u64 = match wire::u64_at(b, p + 16) {
            Some(v) => v,
            None => 0,
        };
        let noff: u32 = match wire::u32_at(b, p) {
            Some(v) => v,
            None => 0,
        };
        let info: u8 = b[p + 4];
        assert(info & 0xF == info % 16) by (bit_vector);
        if info & 0xF == 2 && addr != 0 {
            match read_name(b, strs as u128 + noff as u128) {
                None => {
                    return false;
                },
                Some(name) => {
                    let s = ElfSym { addr, size: sz, name };
                    proof {
                        lemma_syms_push(out@, s);
                        let rest = table_syms(b@, off as int, n as int, strs as int, j + 1);
                        if rest is Some {
                            assert(syms(out@) + (seq![s@] + rest->0) =~= syms(out@).push(s@)
                                + rest->0);
                        }
                    }
                    out.push(s);
                },
            }
        }
        j = j + 1;
        e = e + 24;
    }
    assert(syms(out@) + Seq::<Sym>::empty() =~= syms(out@));
    true
}

/// Appends the function symbols of the section at `sh`; `false` where something lies outside.
fn read_section(b: &[u8], shoff: u64, ent: u16, sh: usize, out: &mut Vec<ElfSym>) -> (ok: bool)
    requires
        sh <= b.len(),
    ensures
        ({
            let t = section_syms(b@, shoff as int, ent as int, sh as int);
            &&& ok == (t is Some)
            &&& ok ==> syms(final(out)@) == syms(old(out)@) + t->0
        }),
{
    assert(syms(out@) + Seq::<Sym>::empty() =~= syms(out@));
    if b.len() - sh < 0x2C {
        // A symbol table's header does not fit; any other kind needs its first eight bytes only.
        if b.len() - sh < 8 {
            return false;
        }
        return match wire::u32_at(b, sh + 4) {
            Some(kind) => kind != 2,
            None => false,
        };
    }
    let kind: u32 = match wire::u32_at(b, sh + 4) {
        Some(k) => k,
        None => {
            return false;
        },
    };
    if kind != 2 {
        return true;
    }
    match (wire::u64_at(b, sh + 0x18), wire::u64_at(b, sh + 0x20), wire::u32_at(b, sh + 0x28)) {
        (Some(off), Some(size), Some(link)) => {
            assert(link * ent <= 0xffff_ffff * 0xffff) by (nonlinear_arith)
                requires
                    link <= 0xffff_ffff,
                    ent <= 0xffff,
            ;
            let at: u128 = shoff as u128 + link as u128 * ent as u128 + 0x18;
            if at > b.len() as u128 {
                return false;
            }
            match wire::u64_at(b, at as usize) {
                Some(strs) => read_table(b, off, size, strs, out),
                None => false,
            }
        },
        _ => false,
    }
}

/// The function symbols of a 64-bit ELF image, in order of their addresses. A symbol at address
/// zero is no function of the image.
pub fn elf_function_symbols(b: &[u8]) -> (r: Result<Vec<ElfSym>, ElfError>)
    ensures
        match r {
            Ok(v) => is_elf64(b@) && image_syms(b@) is Some && sorted_from(
                syms(v@),
                image_syms(b@)->0,
            ),
            Err(ElfError::NotElf64) => !is_elf64(b@),
            Err(ElfError::OutOfBounds) => is_elf64(b@) && image_syms(b@) is None,
        },
{
    if b.len() < 64 || b[0] != 0x7f || b[1] != 0x45 || b[2] != 0x4c || b[3] != 0x46 || b[4] != 2 {
        return Err(ElfError::NotElf64);
    }
    let (shoff, ent, n) = match (wire::u64_at(b, 0x28), wire::u16_at(b, 0x3A), wire::u16_at(
        b,
        0x3C,
    )) {
        (Some(a), Some(c), Some(d)) => (a, c, d),
        _ => {
            return Err(ElfError::NotElf64);
        },
    };
    let ghost all = image_syms(b@);
    let mut out: Vec<ElfSym> = Vec::new();
    let mut i: u16 = 0;
    let mut sh: u128 = shoff as u128;
    proof {
        assert(syms(out@) =~= Seq::empty());
        if all is Some {
            assert(Seq::<Sym>::empty() + all->0 =~= all->0);
        }
    }
    while i < n && sh + ent as u128 <= b.len() as u128
        invariant
            i <= n,
            sh == shoff + i * ent,
            sh <= u64::MAX + 0xffff * 0xffff,
            is_elf64(b@),
            all == image_syms(b@),
            all == sections_syms(b@, shoff as int, ent as int, n as int, 0),
            behind(
                syms(out@),
                sections_syms(b@, shoff as int, ent as int, n as int, i as int),
            ) == all,
        decreases n - i,
    {
        let ghost before = syms(out@);
        let ghost rest = sections_syms(b@, shoff as int, ent as int, n as int, i + 1);
        let ok = read_section(b, shoff, ent, sh as usize, &mut out);
        if !ok {
            return Err(ElfError::OutOfBounds);
        }
        proof {
            let here = section_syms(b@, shoff as int, ent as int, sh as int)->0;
            if rest is Some {
                assert(before + (here + rest->0) =~= (before + here) + rest->0);
            }
            assert((i + 1) * ent == i * ent + ent) by (nonlinear_arith);
            assert((i + 1) * ent <= 0xffff * 0xffff) by (nonlinear_arith)
                requires
                    i + 1 <= 0xffff,
                    ent <= 0xffff,
            ;
        }
        i = i + 1;
        sh = sh + ent as u128;
    }
    assert(syms(out@) + Seq::<Sym>::empty() =~= syms(out@));
    sort_by_address(&mut out);
    Ok(out)
}

/// How many bytes a character has in UTF-8.
pub open spec fn width(c: char) -> nat {
    let n = c as int;
    if n < 0x80 {
        1
    } else if n < 0x800 {
        2
    } else if n < 0x1_0000 {
        3
    } else {
        4
    }
}

/// How many leading characters of `s` have `n` bytes between them, if some have exactly that.
pub open spec fn prefix_of_bytes(s: Seq<char>, n: nat) -> Option<nat>
    decreases s.len(),
{
    if n == 0 {
        Some(0)
    } else if s.len() == 0 || width(s[0]) > n {
        None
    } else {
        match prefix_of_bytes(s.skip(1), (n - width(s[0])) as nat) {
            Some(k) => Some(k + 1),
            None => None,
        }
    }
}

/// How many bytes a text has in UTF-8.
pub open spec fn byte_len(s: Seq<char>) -> nat
    decreases s.len(),
{
    if s.len() == 0 {
        0
    } else {
        width(s[0]) + byte_len(s.skip(1))
    }
}

/// A hexadecimal digit.
pub open spec fn is_hex(c: char) -> bool {
    number::digit_value(c) < 16
}

/// The disambiguating hash at the end of a mangled path: `h` and sixteen hexadecimal digits.
pub open spec fn is_hash(s: Seq<char>) -> bool {
    s.len() == 17 && s[0] == 'h' && forall|i: int| 1 <= i < 17 ==> is_hex(#[trigger] s[i])
}

/// The parts of a mangled path, each behind its length in bytes, up to an `E` or the end; hashes
/// are left out. `None` where the text has another shape.
pub open spec fn components(s: Seq<char>) -> Option<Seq<Seq<char>>>
    decreases s.len(),
{
    if s.len() == 0 || s[0] == 'E' {
        Some(Seq::empty())
    } else {
        proof {
            text::lemma_digit_run(s);
        }
        let d = text::digit_run(s);
        let after = s.skip(d as int);
        if d == 0 {
            None
        } else {
            match number::usize_of(s.take(d as int), 10) {
                None => None,
                Some(n) => {
                    proof {
                        lemma_prefix_bound(after, n as nat);
                    }
                    match prefix_of_bytes(after, n as nat) {
                        None => None,
                        Some(k) => {
                            let part = after.take(k as int);
                            match components(after.skip(k as int)) {
                                None => None,
                                Some(rest) => if is_hash(part) {
                                    Some(rest)
                                } else {
                                    Some(seq![part] + rest)
                                },
                            }
                        },
                    }
                },
            }
        }
    }
}

/// The parts of a path with `::` between them.
pub open spec fn path(parts: Seq<Seq<char>>) -> Seq<char> {
    text::join(parts, "::"@)
}

/// The path that a mangled name stands for; the name itself where it is not mangled so.
pub open spec fn demangled(name: Seq<char>) -> Seq<char> {
    match text::strip_prefix(name, "_ZN"@) {
        None => name,
        Some(rest) => match components(text::split(rest, ".llvm."@)[0]) {
            Some(parts) => if parts.len() > 0 {
                path(parts)
            } else {
                name
            },
            None => name,
        },
    }
}

/// The characters that have the bytes are there.
pub proof fn lemma_prefix_bound(s: Seq<char>, n: nat)
    ensures
        prefix_of_bytes(s, n) matches Some(k) ==> k <= s.len(),
    decreases s.len(),
{
    if n > 0 && s.len() > 0 && width(s[0]) <= n {
        lemma_prefix_bound(s.skip(1), (n - width(s[0])) as nat);
    }
}

fn width_of(c: char) -> (r: usize)
    ensures
        r == width(c),
{
    let n: u32 = c as u32;
    if n < 0x80 {
        1
    } else if n < 0x800 {
        2
    } else if n < 0x1_0000 {
        3
    } else {
        4
    }
}

fn prefix(s: &[char], n: usize) -> (r: Option<usize>)
    ensures
        match r {
            Some(k) => prefix_of_bytes(s@, n as nat) == Some(k as nat) && k <= s.len(),
            None => prefix_of_bytes(s@, n as nat) is None,
        },
{
    let mut i: usize = 0;
    let mut left: usize = n;
    assert(s@.skip(0) =~= s@);
    while left > 0
        invariant
            i <= s.len(),
            match prefix_of_bytes(s@.skip(i as int), left as nat) {
                Some(k) => prefix_of_bytes(s@, n as nat) == Some((k + i) as nat),
                None => prefix_of_bytes(s@, n as nat) is None,
            },
        decreases left,
    {
        if i >= s.len() {
            return None;
        }
        assert(s@.skip(i as int)[0] == s[i as int]);
        assert(s@.skip(i as int).skip(1) =~= s@.skip(i + 1));
        let w: usize = width_of(s[i]);
        if w > left {
            return None;
        }
        left = left - w;
        i = i + 1;
    }
    Some(i)
}

fn hash_part(s: &[char]) -> (r: bool)
    ensures
        r == is_hash(s@),
{
    if s.len() != 17 || s[0] != 'h' {
        return false;
    }
    let mut i: usize = 1;
    while i < 17
        invariant
            1 <= i <= 17,
            s.len() == 17,
            forall|j: int| 1 <= j < i ==> is_hex(#[trigger] s@[j]),
        decreases 17 - i,
    {
        if number::digit_of(s[i]) >= 16 {
            assert(!is_hex(s@[i as int]));
            return false;
        }
        assert(is_hex(s@[i as int]));
        i = i + 1;
    }
    true
}

fn read_components(s: &[char]) -> (r: Option<Vec<&[char]>>)
    ensures
        match r {
            Some(v) => components(s@) == Some(text::views(v@)),
            None => components(s@) is None,
        },
{
    let mut out: Vec<&[char]> = Vec::new();
    let mut rest: &[char] = s;
    let ghost all = components(s@);
    proof {
        assert(text::views(out@) =~= Seq::empty());
        if all is Some {
            assert(Seq::<Seq<char>>::empty() + all->0 =~= all->0);
        }
    }
    while rest.len() > 0 && rest[0] != 'E'
        invariant
            all == components(s@),
            match components(rest@) {
                Some(t) => all == Some(text::views(out@) + t),
                None => all is None,
            },
        decreases rest.len(),
    {
        proof {
            text::lemma_digit_run(rest@);
        }
        let d: usize = text::digits_len(rest);
        if d == 0 {
            return None;
        }
        let n: usize = match number::parse_usize(text::take(rest, d), 10) {
            Some(n) => n,
            None => {
                return None;
            },
        };
        let after = text::skip(rest, d);
        let k: usize = match prefix(after, n) {
            Some(k) => k,
            None => {
                return None;
            },
        };
        let part = text::take(after, k);
        let next = text::skip(after, k);
        if !hash_part(part) {
            proof {
                assert(text::views(out@.push(part)) =~= text::views(out@).push(part@));
                if components(next@) is Some {
                    let t = components(next@)->0;
                    assert(text::views(out@) + (seq![part@] + t) =~= text::views(out@).push(part@)
                        + t);
                }
            }
            out.push(part);
        }
        rest = next;
    }
    assert(text::views(out@) + Seq::<Seq<char>>::empty() =~= text::views(out@));
    Some(out)
}

/// The path that a mangled name stands for, without its hash and without the suffix that a
/// later pass gave it; a name of any other shape comes back unchanged.
pub fn demangle(name: &str) -> (r: String)
    ensures
        r@ == demangled(name@),
{
    let c = text::chars_of(name);
    match text::after_prefix(c.as_slice(), "_ZN") {
        None => text::string_of(c.as_slice()),
        Some(rest) => {
            proof {
                reveal_strlit(".llvm.");
            }
            let p = text::pieces(rest, ".llvm.");
            assert(text::views(p@)[0] == p[0]@);
            match read_components(p[0]) {
                Some(parts) => {
                    assert(text::views(parts@).len() == parts.len());
                    if parts.len() > 0 {
                        let p = text::joined(&parts, "::");
                        text::string_of(p.as_slice())
                    } else {
                        text::string_of(c.as_slice())
                    }
                },
                None => text::string_of(c.as_slice()),
            }
        },
    }
}

/// The last symbol that does not begin behind `addr`, if there is one.
pub open spec fn nearest(s: Seq<Sym>, addr: u64) -> Option<Sym>
    decreases s.len(),
{
    if s.len() == 0 {
        None
    } else if s.last().addr <= addr {
        Some(s.last())
    } else {
        nearest(s.drop_last(), addr)
    }
}

/// `addr` is in the code of `x`, one of the symbols `s`: none of them begins between the two, and
/// `addr` lies in the extent of `x`, or `x` has no size.
pub open spec fn covers(s: Seq<Sym>, x: Sym, addr: u64) -> bool {
    &&& nearest(s, addr) matches Some(n) && n.addr == x.addr
    &&& x.size == 0 || addr < x.addr + x.size
}

/// The last of the first `k` symbols in whose code `addr` is, if there is one.
pub open spec fn covering(s: Seq<Sym>, k: nat, addr: u64) -> Option<Sym>
    decreases k,
{
    if k == 0 {
        None
    } else if covers(s, s[k - 1], addr) {
        Some(s[k - 1])
    } else {
        covering(s, (k - 1) as nat, addr)
    }
}

/// What `addr` is called as a place in the code of `x`: the function's path and how far inside.
pub open spec fn called(x: Sym, addr: u64) -> Seq<char> {
    demangled(x.name) + "+0x"@ + number::numeral((addr - x.addr) as nat, 16)
}

/// What `addr` is called, if it is in the code of a symbol.
pub open spec fn resolved(s: Seq<Sym>, addr: u64) -> Option<Seq<char>> {
    match covering(s, s.len(), addr) {
        Some(x) => Some(called(x, addr)),
        None => None,
    }
}

/// What `addr` is called; `None` where it is in no symbol's code.
pub fn resolve_symbol(table: &[ElfSym], addr: u64) -> (r: Option<String>)
    requires
        by_address(syms(table@)),
    ensures
        match r {
            Some(t) => resolved(syms(table@), addr) == Some(t@),
            None => resolved(syms(table@), addr) is None,
        },
{
    let ghost all = syms(table@);
    let mut lo: usize = 0;
    let mut hi: usize = table.len();
    while lo < hi
        invariant
            lo <= hi <= table.len(),
            all == syms(table@),
            by_address(all),
            forall|i: int| 0 <= i < lo ==> (#[trigger] all[i]).addr <= addr,
            forall|i: int| hi <= i < all.len() ==> (#[trigger] all[i]).addr > addr,
        decreases hi - lo,
    {
        let mid: usize = lo + (hi - lo) / 2;
        assert(all[mid as int] == table[mid as int]@);
        if table[mid].addr <= addr {
            lo = mid + 1;
        } else {
            hi = mid;
        }
    }
    proof {
        lemma_nearest(all, addr, lo as int);
        lemma_none_behind(all, addr, lo as nat, all.len());
    }
    if lo == 0 {
        return None;
    }
    let start: u64 = table[lo - 1].addr;
    assert(all[lo - 1] == table[lo - 1]@);
    let mut i: usize = lo;
    while i > 0 && table[i - 1].addr == start
        invariant
            i <= lo <= table.len(),
            all == syms(table@),
            start <= addr,
            nearest(all, addr) matches Some(n) && n.addr == start,
            covering(all, all.len(), addr) == covering(all, i as nat, addr),
        decreases i,
    {
        let s = &table[i - 1];
        assert(all[i - 1] == s@);
        if s.size == 0 || addr - s.addr < s.size {
            let mut out = demangle(s.name.as_str());
            out.append("+0x");
            let d = number::write_number(addr - s.addr, 16);
            let h = text::string_of(d.as_slice());
            out.append(h.as_str());
            return Some(out);
        }
        i = i - 1;
    }
    proof {
        assert forall|j: int| 0 <= j < i implies (#[trigger] all[j]).addr != start by {
            assert(all[i - 1] == table[i - 1]@);
            assert(all[j].addr <= all[i - 1].addr <= all[lo - 1].addr);
        }
        lemma_none_before(all, addr, i as nat, start);
    }
    None
}

proof fn lemma_none_before(s: Seq<Sym>, addr: u64, k: nat, start: u64)
    requires
        k <= s.len(),
        nearest(s, addr) matches Some(n) && n.addr == start,
        forall|i: int| 0 <= i < k ==> (#[trigger] s[i]).addr != start,
    ensures
        covering(s, k, addr) is None,
    decreases k,
{
    if k > 0 {
        assert(s[k - 1].addr != start);
        lemma_none_before(s, addr, (k - 1) as nat, start);
    }
}

proof fn lemma_none_behind(s: Seq<Sym>, addr: u64, k: nat, n: nat)
    requires
        k <= n <= s.len(),
        forall|i: int| 0 <= i < k ==> (#[trigger] s[i]).addr <= addr,
        forall|i: int| k <= i < s.len() ==> (#[trigger] s[i]).addr > addr,
    ensures
        covering(s, n, addr) == covering(s, k, addr),
    decreases n,
{
    if n > k {
        assert(s[n - 1].addr > addr);
        lemma_nearest(s, addr, k as int);
        lemma_none_behind(s, addr, k, (n - 1) as nat);
    }
}

proof fn lemma_nearest(s: Seq<Sym>, addr: u64, k: int)
    requires
        0 <= k <= s.len(),
        forall|i: int| 0 <= i < k ==> (#[trigger] s[i]).addr <= addr,
        forall|i: int| k <= i < s.len() ==> (#[trigger] s[i]).addr > addr,
    ensures
        nearest(s, addr) == (if k == 0 {
            None::<Sym>
        } else {
            Some(s[k - 1])
        }),
    decreases s.len(),
{
    if s.len() > k {
        assert(s.last() == s[s.len() - 1]);
        lemma_nearest(s.drop_last(), addr, k);
    }
}

proof fn lemma_covering(s: Seq<Sym>, k: nat, addr: u64)
    requires
        k <= s.len(),
    ensures
        match covering(s, k, addr) {
            Some(x) => exists|i: int| 0 <= i < k && #[trigger] s[i] == x && covers(s, x, addr),
            None => forall|i: int| 0 <= i < k ==> !covers(s, #[trigger] s[i], addr),
        },
    decreases k,
{
    if k > 0 && !covers(s, s[k - 1], addr) {
        lemma_covering(s, (k - 1) as nat, addr);
    }
}

/// An address is named after a symbol in whose code it is, with its offset there, and it has a name
/// whenever it is in the code of one.
pub proof fn law_resolved_inside_the_extent(s: Seq<Sym>, addr: u64)
    ensures
        match resolved(s, addr) {
            Some(t) => exists|i: int|
                0 <= i < s.len() && covers(s, #[trigger] s[i], addr) && t == called(s[i], addr),
            None => forall|i: int| 0 <= i < s.len() ==> !covers(s, #[trigger] s[i], addr),
        },
{
    lemma_covering(s, s.len(), addr);
}

/// A name that does not begin as mangled names do comes back unchanged.
pub proof fn law_other_names_are_unchanged(name: Seq<char>)
    requires
        !text::starts_with(name, "_ZN"@),
    ensures
        demangled(name) == name,
{
}

/// How a path is mangled: each part behind its length in bytes.
pub open spec fn mangled(parts: Seq<Seq<char>>) -> Seq<char>
    decreases parts.len(),
{
    if parts.len() == 0 {
        Seq::empty()
    } else {
        number::numeral(byte_len(parts[0]), 10) + parts[0] + mangled(parts.skip(1))
    }
}

/// A part that can be read back behind its length: it does not begin with a digit, and its length
/// is one that the machine can count.
pub open spec fn is_part(s: Seq<char>) -> bool {
    s.len() > 0 && !text::is_digit(s[0]) && byte_len(s) <= usize::MAX && !is_hash(s)
}

proof fn lemma_prefix_of_whole(s: Seq<char>, after: Seq<char>)
    ensures
        prefix_of_bytes(s + after, byte_len(s)) == Some(s.len()),
    decreases s.len(),
{
    if s.len() > 0 {
        assert((s + after).skip(1) =~= s.skip(1) + after);
        assert((s + after)[0] == s[0]);
        lemma_prefix_of_whole(s.skip(1), after);
    }
}

proof fn lemma_digit_run_ends(d: Seq<char>, after: Seq<char>)
    requires
        forall|i: int| 0 <= i < d.len() ==> text::is_digit(#[trigger] d[i]),
        after.len() > 0,
        !text::is_digit(after[0]),
    ensures
        text::digit_run(d + after) == d.len(),
    decreases d.len(),
{
    if d.len() > 0 {
        assert((d + after)[0] == d[0]);
        assert((d + after).skip(1) =~= d.skip(1) + after);
        assert forall|i: int| 0 <= i < d.skip(1).len() implies text::is_digit(
            #[trigger] d.skip(1)[i],
        ) by {
            assert(d.skip(1)[i] == d[i + 1]);
        }
        lemma_digit_run_ends(d.skip(1), after);
    } else {
        assert(d + after =~= after);
    }
}

/// The first part of a mangled path is read behind its length, and the rest is read as it stands.
#[verifier::spinoff_prover]
#[verifier::rlimit(60)]
proof fn lemma_first_part(p: Seq<char>, tail: Seq<char>)
    requires
        p.len() > 0,
        !text::is_digit(p[0]),
        byte_len(p) <= usize::MAX,
    ensures
        components(number::numeral(byte_len(p), 10) + (p + tail)) == match components(tail) {
            None => None::<Seq<Seq<char>>>,
            Some(rest) => if is_hash(p) {
                Some(rest)
            } else {
                Some(seq![p] + rest)
            },
        },
{
    let n = byte_len(p);
    let d = number::numeral(n, 10);
    let s = d + (p + tail);
    number::law_numeral_reads_back(n, 10);
    assert forall|i: int| 0 <= i < d.len() implies text::is_digit(#[trigger] d[i]) by {
        assert(number::digit_value(d[i]) < 10);
    }
    lemma_digit_run_ends(d, p + tail);
    assert(s.take(d.len() as int) =~= d);
    assert(s.skip(d.len() as int) =~= p + tail);
    assert(text::is_digit(d[0]));
    assert(s[0] == d[0]);
    assert(number::usize_of(d, 10) == Some(n as usize));
    lemma_prefix_of_whole(p, tail);
    assert((p + tail).take(p.len() as int) =~= p);
    assert((p + tail).skip(p.len() as int) =~= tail);
}

/// A text of characters of one byte has as many bytes as characters.
proof fn lemma_narrow(s: Seq<char>)
    requires
        forall|i: int| 0 <= i < s.len() ==> width(#[trigger] s[i]) == 1,
    ensures
        byte_len(s) == s.len(),
    decreases s.len(),
{
    if s.len() > 0 {
        assert forall|i: int| 0 <= i < s.skip(1).len() implies width(
            #[trigger] s.skip(1)[i],
        ) == 1 by {
            assert(s.skip(1)[i] == s[i + 1]);
        }
        assert(width(s[0]) == 1);
        lemma_narrow(s.skip(1));
    }
}

/// A path's parts with the hash behind them, where there is one.
pub open spec fn hashed(parts: Seq<Seq<char>>, hash: Option<Seq<char>>) -> Seq<Seq<char>> {
    match hash {
        Some(h) => parts.push(h),
        None => parts,
    }
}

/// What stands in front of a suffix, where nothing in it looks like the beginning of one, is what a
/// split gives first.
proof fn lemma_cut_before(body: Seq<char>, suffix: Seq<char>)
    requires
        body.len() > 0,
        body.last() == 'E',
        !text::contains(body, ".llvm."@),
        suffix.len() == 0 || text::starts_with(suffix, ".llvm."@),
    ensures
        text::split(body + suffix, ".llvm."@)[0] == body,
{
    reveal_strlit(".llvm.");
    let pat = ".llvm."@;
    let all = body + suffix;
    text::lemma_find(all, pat);
    text::lemma_find(body, pat);
    assert forall|i: int| 0 <= i < body.len() implies !text::occurs_at(all, pat, i) by {
        if text::occurs_at(all, pat, i) {
            assert(all.subrange(i, i + 6) == pat);
            if i + 6 <= body.len() {
                assert(body.subrange(i, i + 6) =~= all.subrange(i, i + 6));
                assert(text::occurs_at(body, pat, i));
            } else {
                let k = body.len() - 1 - i;
                assert(all.subrange(i, i + 6)[k] == all[body.len() - 1]);
                assert(pat[k] == 'E');
            }
        }
    }
    if suffix.len() == 0 {
        assert(all =~= body);
    } else {
        assert(suffix.subrange(0, 6) =~= pat);
        let n = body.len() as int;
        assert(all.subrange(n, n + 6) =~= suffix.subrange(0, 6));
        assert(text::occurs_at(all, pat, n));
        assert(all.take(n) =~= body);
    }
}

/// The parts of a mangled path are read back from it, whatever follows its end.
#[verifier::spinoff_prover]
#[verifier::rlimit(60)]
pub proof fn law_mangled_parts_read_back(parts: Seq<Seq<char>>, after: Seq<char>)
    requires
        forall|i: int| 0 <= i < parts.len() ==> is_part(#[trigger] parts[i]),
    ensures
        components(mangled(parts) + "E"@ + after) == Some(parts),
    decreases parts.len(),
{
    reveal_strlit("E");
    let s = mangled(parts) + "E"@ + after;
    if parts.len() == 0 {
        assert(s[0] == 'E');
        assert(Seq::<Seq<char>>::empty() =~= parts);
    } else {
        let p = parts[0];
        let tail = mangled(parts.skip(1)) + "E"@ + after;
        assert(is_part(parts[0]));
        assert forall|i: int| 0 <= i < parts.skip(1).len() implies is_part(
            #[trigger] parts.skip(1)[i],
        ) by {
            assert(parts.skip(1)[i] == parts[i + 1]);
        }
        law_mangled_parts_read_back(parts.skip(1), after);
        assert(s =~= number::numeral(byte_len(p), 10) + (p + tail));
        lemma_first_part(p, tail);
        assert(seq![p] + parts.skip(1) =~= parts);
    }
}

/// The parts of a mangled path behind which a hash stands are read back without it.
#[verifier::spinoff_prover]
#[verifier::rlimit(60)]
proof fn lemma_hash_is_left_out(parts: Seq<Seq<char>>, hash: Seq<char>)
    requires
        forall|i: int| 0 <= i < parts.len() ==> is_part(#[trigger] parts[i]),
        is_hash(hash),
    ensures
        components(mangled(parts.push(hash)) + "E"@) == Some(parts),
    decreases parts.len(),
{
    reveal_strlit("E");
    let with = parts.push(hash);
    let s = mangled(with) + "E"@;
    let p = with[0];
    let tail = mangled(with.skip(1)) + "E"@;
    assert(s =~= number::numeral(byte_len(p), 10) + (p + tail));
    if parts.len() == 0 {
        assert forall|i: int| 0 <= i < hash.len() implies width(#[trigger] hash[i]) == 1 by {
            if i > 0 {
                assert(is_hex(hash[i]));
            }
        }
        lemma_narrow(hash);
        assert(with.skip(1) =~= Seq::empty());
        lemma_first_part(p, tail);
        assert(tail[0] == 'E');
        assert(parts =~= Seq::empty());
    } else {
        assert(is_part(parts[0]));
        assert(with.skip(1) =~= parts.skip(1).push(hash));
        assert forall|i: int| 0 <= i < parts.skip(1).len() implies is_part(
            #[trigger] parts.skip(1)[i],
        ) by {
            assert(parts.skip(1)[i] == parts[i + 1]);
        }
        lemma_hash_is_left_out(parts.skip(1), hash);
        lemma_first_part(p, tail);
        assert(seq![p] + parts.skip(1) =~= parts);
    }
}

/// A mangled path of one part or more demangles to the path, whether or not a hash stands behind
/// its parts, and whatever suffix a later pass has given it.
#[verifier::spinoff_prover]
#[verifier::rlimit(60)]
pub proof fn law_demangling_recovers_the_path(
    parts: Seq<Seq<char>>,
    hash: Option<Seq<char>>,
    suffix: Seq<char>,
)
    requires
        parts.len() > 0,
        forall|i: int| 0 <= i < parts.len() ==> is_part(#[trigger] parts[i]),
        hash matches Some(h) ==> is_hash(h),
        suffix.len() == 0 || text::starts_with(suffix, ".llvm."@),
        !text::contains(mangled(hashed(parts, hash)) + "E"@, ".llvm."@),
    ensures
        demangled("_ZN"@ + mangled(hashed(parts, hash)) + "E"@ + suffix) == path(parts),
{
    reveal_strlit("_ZN");
    reveal_strlit("E");
    reveal_strlit(".llvm.");
    let m = mangled(hashed(parts, hash));
    let body = m + "E"@;
    let name = "_ZN"@ + m + "E"@ + suffix;
    assert(name.subrange(0, 3) =~= "_ZN"@);
    assert(name.skip(3) =~= body + suffix);
    lemma_cut_before(body, suffix);
    match hash {
        Some(h) => lemma_hash_is_left_out(parts, h),
        None => {
            law_mangled_parts_read_back(parts, Seq::empty());
            assert(body + Seq::<char>::empty() =~= body);
        },
    }
}

/// Entry `k` of the table at `off` is for the function `x`: the low four bits of its info byte
/// are the type of functions, whatever the binding in the high four; its address is not zero; and its
/// name is the one that it points at among the names.
pub open spec fn is_function_entry(b: Seq<u8>, off: int, k: int, strs: int, x: Sym) -> bool {
    let e = off + k * 24;
    &&& b[e + 4] as int - b[e + 4] as int / 16 * 16 == 2
    &&& x.addr == wire::le(b.subrange(e + 8, e + 16))
    &&& x.addr != 0
    &&& x.size == wire::le(b.subrange(e + 16, e + 24))
    &&& name_at(b, strs + wire::le(b.subrange(e, e + 4))) == Some(x.name)
}

proof fn lemma_le_fits(s: Seq<u8>)
    requires
        s.len() == 8,
    ensures
        wire::le(s) <= u64::MAX,
{
    wire::lemma_le_bound(s);
    assert(wire::byte_range(8) == 0x1_0000_0000_0000_0000) by {
        reveal_with_fuel(wire::byte_range, 9);
    }
}

/// A table lists its functions, all of them and nothing else, as far as its entries lie inside the
/// image; which binding an entry has is nothing to it.
#[verifier::spinoff_prover]
#[verifier::rlimit(60)]
pub proof fn law_a_table_lists_its_functions(b: Seq<u8>, off: int, n: int, strs: int, j: int, x: Sym)
    requires
        0 <= off,
        0 <= j,
    ensures
        table_syms(b, off, n, strs, j) matches Some(t) ==> (t.contains(x) <==> exists|k: int|
            j <= k < n && off + k * 24 + 24 <= b.len() && #[trigger] is_function_entry(
                b,
                off,
                k,
                strs,
                x,
            )),
    decreases n - j,
{
    let e = off + j * 24;
    if j < n && e + 24 <= b.len() {
        law_a_table_lists_its_functions(b, off, n, strs, j + 1, x);
        lemma_le_fits(b.subrange(e + 8, e + 16));
        lemma_le_fits(b.subrange(e + 16, e + 24));
        let all = table_syms(b, off, n, strs, j);
        let rest = table_syms(b, off, n, strs, j + 1);
        if all is Some {
            let t = all->0;
            let r = rest->0;
            let info = b[e + 4];
            if info % 16 == 2 && wire::le(b.subrange(e + 8, e + 16)) != 0 {
                if t.contains(x) {
                    let m = choose|m: int| 0 <= m < t.len() && t[m] == x;
                    if m == 0 {
                        assert(is_function_entry(b, off, j, strs, x));
                    } else {
                        assert(r[m - 1] == x);
                    }
                }
                if r.contains(x) {
                    let m = choose|m: int| 0 <= m < r.len() && r[m] == x;
                    assert(t[m + 1] == x);
                }
                if is_function_entry(b, off, j, strs, x) {
                    assert(t[0] == x);
                }
            }
        }
    } else {
        assert forall|k: int| j <= k < n implies off + k * 24 + 24 > b.len() || !#[trigger]
            is_function_entry(b, off, k, strs, x) by {}
    }
}

/// Where the name of entry `k` of the table at `off` begins among the names.
pub open spec fn name_offset(b: Seq<u8>, off: int, k: int) -> nat {
    wire::le(b.subrange(off + k * 24, off + k * 24 + 4))
}

/// A table without an entry that points outside the image for its name is read.
#[verifier::spinoff_prover]
#[verifier::rlimit(60)]
pub proof fn law_a_table_is_read(b: Seq<u8>, off: int, n: int, strs: int, j: int)
    requires
        0 <= off,
        0 <= j,
        forall|k: int|
            j <= k < n && off + k * 24 + 24 <= b.len() ==> 0 <= strs + #[trigger] name_offset(
                b,
                off,
                k,
            ) <= b.len(),
    ensures
        table_syms(b, off, n, strs, j) is Some,
    decreases n - j,
{
    let e = off + j * 24;
    if j < n && e + 24 <= b.len() {
        assert(0 <= strs + name_offset(b, off, j) <= b.len());
        law_a_table_is_read(b, off, n, strs, j + 1);
    }
}

/// The functions of an image are those of its sections that are symbol tables, as far as their headers
/// lie inside the image.
#[verifier::spinoff_prover]
#[verifier::rlimit(60)]
pub proof fn law_an_image_lists_its_tables(b: Seq<u8>, shoff: int, ent: int, n: int, i: int, x: Sym)
    requires
        0 <= shoff,
        0 <= ent,
        0 <= i,
    ensures
        sections_syms(b, shoff, ent, n, i) matches Some(t) ==> (t.contains(x) <==> exists|k: int|
            i <= k < n && shoff + k * ent + ent <= b.len() && #[trigger] section_holds(
                b,
                shoff,
                ent,
                k,
                x,
            )),
    decreases n - i,
{
    let sh = shoff + i * ent;
    if i < n && sh + ent <= b.len() {
        law_an_image_lists_its_tables(b, shoff, ent, n, i + 1, x);
        let all = sections_syms(b, shoff, ent, n, i);
        if all is Some {
            let t = all->0;
            let here = section_syms(b, shoff, ent, sh)->0;
            let rest = sections_syms(b, shoff, ent, n, i + 1)->0;
            assert(t == here + rest);
            lemma_section(b, shoff, ent, i, x);
            if t.contains(x) {
                let m = choose|m: int| 0 <= m < t.len() && t[m] == x;
                if m < here.len() {
                    assert(here[m] == x);
                    assert(section_holds(b, shoff, ent, i, x));
                } else {
                    assert(rest[m - here.len()] == x);
                }
            }
            if here.contains(x) {
                let m = choose|m: int| 0 <= m < here.len() && here[m] == x;
                assert(t[m] == x);
            }
            if rest.contains(x) {
                let m = choose|m: int| 0 <= m < rest.len() && rest[m] == x;
                assert(t[here.len() + m] == x);
            }
        }
    } else {
        assert forall|k: int| i <= k < n implies shoff + k * ent + ent > b.len() || !#[trigger]
            section_holds(b, shoff, ent, k, x) by {
            assert(k * ent >= i * ent) by (nonlinear_arith)
                requires
                    k >= i,
                    ent >= 0,
            ;
        }
    }
}

/// Section `k` is a symbol table that has an entry for the function `x`: its
/// type is two, and its entries and its names are where its header, and the header of the section
/// that it is linked to, say.
pub open spec fn section_holds(b: Seq<u8>, shoff: int, ent: int, k: int, x: Sym) -> bool {
    let sh = shoff + k * ent;
    let link = wire::le(b.subrange(sh + 0x28, sh + 0x2C));
    let off = wire::le(b.subrange(sh + 0x18, sh + 0x20)) as int;
    let n = wire::le(b.subrange(sh + 0x20, sh + 0x28)) as int / 24;
    let strs = wire::le(
        b.subrange(shoff + link * ent + 0x18, shoff + link * ent + 0x20),
    ) as int;
    &&& wire::le(b.subrange(sh + 4, sh + 8)) == 2
    &&& exists|j: int|
        0 <= j < n && off + j * 24 + 24 <= b.len() && #[trigger] is_function_entry(
            b,
            off,
            j,
            strs,
            x,
        )
}

proof fn lemma_section(b: Seq<u8>, shoff: int, ent: int, k: int, x: Sym)
    requires
        0 <= shoff + k * ent,
    ensures
        section_syms(b, shoff, ent, shoff + k * ent) matches Some(t) ==> (t.contains(x)
            <==> section_holds(b, shoff, ent, k, x)),
{
    let sh = shoff + k * ent;
    if section_syms(b, shoff, ent, sh) is Some && wire::le(b.subrange(sh + 4, sh + 8)) == 2 {
        let link = wire::le(b.subrange(sh + 0x28, sh + 0x2C));
        let off = wire::le(b.subrange(sh + 0x18, sh + 0x20)) as int;
        let n = wire::le(b.subrange(sh + 0x20, sh + 0x28)) as int / 24;
        let strs = wire::le(
            b.subrange(shoff + link * ent + 0x18, shoff + link * ent + 0x20),
        ) as int;
        law_a_table_lists_its_functions(b, off, n, strs, 0, x);
    }
}

/// A name is what stands up to the zero byte that ends it.
pub proof fn law_a_name_ends_at_its_zero(b: Seq<u8>, o: int, e: int)
    requires
        0 <= o <= e < b.len(),
        b[e] == 0,
        forall|i: int| o <= i < e ==> b[i] != 0,
    ensures
        name_at(b, o) == Some(wire::decoded(b.subrange(o, e))),
    decreases e - o,
{
    lemma_nul(b, o, e);
}

proof fn lemma_nul(b: Seq<u8>, o: int, e: int)
    requires
        0 <= o <= e < b.len(),
        b[e] == 0,
        forall|i: int| o <= i < e ==> b[i] != 0,
    ensures
        nul_from(b, o) == Some(e),
    decreases e - o,
{
    if o < e {
        lemma_nul(b, o + 1, e);
    }
}

/// The code of a symbol reaches as far as the address: it begins there or before, no other begins
/// between, and the address lies in its extent, unless it has none.
pub open spec fn reaches(s: Seq<Sym>, i: int, addr: u64) -> bool {
    &&& s[i].addr <= addr
    &&& forall|j: int| 0 <= j < s.len() && s[i].addr < (#[trigger] s[j]).addr ==> addr < s[j].addr
    &&& s[i].size == 0 || addr < s[i].addr + s[i].size
}

/// An address is named after the last symbol, in the order of their addresses, whose code reaches it:
/// by its demangled name and the distance from its beginning. It has no name exactly where no code
/// reaches it.
pub proof fn law_an_address_is_named_after_its_code(s: Seq<Sym>, addr: u64)
    requires
        by_address(s),
    ensures
        match resolved(s, addr) {
            Some(t) => exists|i: int|
                0 <= i < s.len() && #[trigger] reaches(s, i, addr) && (forall|j: int|
                    i < j < s.len() ==> !#[trigger] reaches(s, j, addr)) && t == demangled(s[i].name)
                    + "+0x"@ + number::numeral((addr - s[i].addr) as nat, 16),
            None => forall|i: int| 0 <= i < s.len() ==> !#[trigger] reaches(s, i, addr),
        },
{
    assert forall|i: int| 0 <= i < s.len() implies covers(s, #[trigger] s[i], addr) == reaches(
        s,
        i,
        addr,
    ) by {
        lemma_reaches(s, i, addr);
    }
    lemma_last_covering(s, s.len(), addr);
    match covering(s, s.len(), addr) {
        Some(x) => {
            let i = choose|i: int|
                0 <= i < s.len() && #[trigger] s[i] == x && covers(s, x, addr) && forall|j: int|
                    i < j < s.len() ==> !covers(s, #[trigger] s[j], addr);
            assert(reaches(s, i, addr));
            assert forall|j: int| i < j < s.len() implies !#[trigger] reaches(s, j, addr) by {
                assert(!covers(s, s[j], addr));
            }
        },
        None => {
            assert forall|i: int| 0 <= i < s.len() implies !#[trigger] reaches(s, i, addr) by {
                assert(!covers(s, s[i], addr));
            }
        },
    }
}

proof fn lemma_reaches(s: Seq<Sym>, i: int, addr: u64)
    requires
        by_address(s),
        0 <= i < s.len(),
    ensures
        covers(s, s[i], addr) == reaches(s, i, addr),
{
    lemma_nearest_of(s, addr);
    match nearest(s, addr) {
        Some(n) => {
            let k = choose|k: int|
                0 <= k < s.len() && #[trigger] s[k] == n && n.addr <= addr && forall|j: int|
                    k < j < s.len() ==> (#[trigger] s[j]).addr > addr;
            if n.addr == s[i].addr {
                assert forall|j: int| 0 <= j < s.len() && s[i].addr < (#[trigger] s[j]).addr implies addr
                    < s[j].addr by {
                    if j <= k {
                        assert(s[j].addr <= s[k].addr);
                    }
                }
            } else if s[i].addr <= addr {
                assert(i <= k) by {
                    if i > k {
                        assert(s[i].addr > addr);
                    }
                }
                assert(s[i].addr <= s[k].addr);
            }
        },
        None => {
            assert(s[i].addr > addr);
        },
    }
}

proof fn lemma_nearest_of(s: Seq<Sym>, addr: u64)
    ensures
        match nearest(s, addr) {
            Some(n) => exists|k: int|
                0 <= k < s.len() && #[trigger] s[k] == n && n.addr <= addr && forall|j: int|
                    k < j < s.len() ==> (#[trigger] s[j]).addr > addr,
            None => forall|j: int| 0 <= j < s.len() ==> (#[trigger] s[j]).addr > addr,
        },
    decreases s.len(),
{
    if s.len() > 0 {
        let last = s.len() - 1;
        if s.last().addr <= addr {
            assert(s[last] == s.last());
        } else {
            let front = s.drop_last();
            lemma_nearest_of(front, addr);
            match nearest(front, addr) {
                Some(n) => {
                    let k = choose|k: int|
                        0 <= k < front.len() && #[trigger] front[k] == n && n.addr <= addr && forall|j: int|
                            k < j < front.len() ==> (#[trigger] front[j]).addr > addr;
                    assert(s[k] == n);
                    assert forall|j: int| k < j < s.len() implies (#[trigger] s[j]).addr > addr by {
                        if j < last {
                            assert(front[j] == s[j]);
                        }
                    }
                },
                None => {
                    assert forall|j: int| 0 <= j < s.len() implies (#[trigger] s[j]).addr > addr by {
                        if j < last {
                            assert(front[j] == s[j]);
                        }
                    }
                },
            }
        }
    }
}

proof fn lemma_last_covering(s: Seq<Sym>, k: nat, addr: u64)
    requires
        k <= s.len(),
    ensures
        match covering(s, k, addr) {
            Some(x) => exists|i: int|
                0 <= i < k && #[trigger] s[i] == x && covers(s, x, addr) && forall|j: int|
                    i < j < k ==> !covers(s, #[trigger] s[j], addr),
            None => forall|i: int| 0 <= i < k ==> !covers(s, #[trigger] s[i], addr),
        },
    decreases k,
{
    if k > 0 {
        lemma_last_covering(s, (k - 1) as nat, addr);
        if covers(s, s[k - 1], addr) {
            assert(s[k - 1] == s[k - 1]);
        } else {
            match covering(s, (k - 1) as nat, addr) {
                Some(x) => {
                    let i = choose|i: int|
                        0 <= i < k - 1 && #[trigger] s[i] == x && covers(s, x, addr) && forall|j: int|
                            i < j < k - 1 ==> !covers(s, #[trigger] s[j], addr);
                    assert(s[i] == x);
                    assert forall|j: int| i < j < k implies !covers(s, #[trigger] s[j], addr) by {}
                },
                None => {},
            }
        }
    }
}

/// A hash is the letter `h` and sixteen hexadecimal digits, and nothing shorter or longer is one.
pub proof fn law_a_hash_is_sixteen_digits(n: nat, s: Seq<char>)
    ensures
        is_hash(seq!['h'] + number::padded(n, 16, 16)),
        s.len() != 17 ==> !is_hash(s),
        s.len() > 0 && s[0] != 'h' ==> !is_hash(s),
{
    number::law_padded_reads_back(n, 16, 16);
    let d = number::padded(n, 16, 16);
    let h = seq!['h'] + d;
    assert forall|i: int| 1 <= i < 17 implies is_hex(#[trigger] h[i]) by {
        assert(number::digit_value(d[i - 1]) < 16);
        assert(h[i] == d[i - 1]);
    }
}

/// A path's parts stand in their order, with two colons between each and the next.
pub proof fn law_a_path_joins_its_parts(parts: Seq<Seq<char>>, last: Seq<char>)
    ensures
        path(seq![last]) == last,
        parts.len() > 0 ==> path(parts.push(last)) == path(parts) + seq![':', ':'] + last,
{
    reveal_strlit("::");
    assert("::"@ =~= seq![':', ':']);
    assert(parts.push(last).drop_last() =~= parts);
}

proof fn lemma_width(c: char)
    ensures
        vstd::utf8::encode_scalar(c as u32).len() == width(c),
{
    vstd::utf8::char_is_scalar(c);
    assert(c as u32 == c as int);
}

/// A name's length is that of its encoding.
pub proof fn law_lengths_are_counted_in_bytes(s: Seq<char>)
    ensures
        byte_len(s) == vstd::utf8::encode_utf8(s).len(),
    decreases s.len(),
{
    if s.len() > 0 {
        law_lengths_are_counted_in_bytes(s.drop_first());
        assert(s.drop_first() =~= s.skip(1));
        lemma_width(s[0]);
        assert(vstd::utf8::encode_utf8(s) == vstd::utf8::encode_scalar(s[0] as u32)
            + vstd::utf8::encode_utf8(s.drop_first()));
    }
}

} // verus!
