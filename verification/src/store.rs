//! The package store: a package's path is made of a hash of its programs, its name and its
//! version.

use vstd::prelude::*;

use crate::number;
use crate::paths;
use crate::text;

verus! {

/// The hash of no bytes.
pub const OFFSET: u64 = 0xcbf2_9ce4_8422_2325;

/// What the hash is multiplied by for each byte.
pub const PRIME: u64 = 0x0000_0100_0000_01b3;

/// The hash of the bytes: each is mixed in by exclusive or, and the hash then multiplied modulo
/// the size of a word.
pub open spec fn hash(bytes: Seq<u8>) -> u64
    decreases bytes.len(),
{
    if bytes.len() == 0 {
        OFFSET
    } else {
        ((hash(bytes.drop_last()) ^ bytes.last() as u64) * PRIME % 0x1_0000_0000_0000_0000) as u64
    }
}

/// How many digits of the hash are shown.
pub const DIGITS: usize = 12;

/// The hash as it is shown: the first digits of sixteen.
pub open spec fn shown_hash(bytes: Seq<u8>) -> Seq<char> {
    number::padded(hash(bytes) as nat, 16, 16).take(DIGITS as int)
}

/// The hash of the bytes as it is shown.
pub fn store_hash(bytes: &[u8]) -> (r: String)
    ensures
        r@ == shown_hash(bytes@),
{
    let mut h: u64 = OFFSET;
    let mut i: usize = 0;
    while i < bytes.len()
        invariant
            i <= bytes.len(),
            h == hash(bytes@.take(i as int)),
        decreases bytes.len() - i,
    {
        assert(bytes@.take(i + 1).drop_last() =~= bytes@.take(i as int));
        h = (h ^ (bytes[i] as u64)).wrapping_mul(PRIME);
        i = i + 1;
    }
    assert(bytes@.take(i as int) =~= bytes@);
    let d = number::write_padded(h, 16, 16);
    proof {
        number::law_padded_reads_back(h as nat, 16, 16);
    }
    text::string_of(text::take(d.as_slice(), DIGITS))
}

/// What is shown of a hash is twelve hexadecimal digits.
pub proof fn law_a_shown_hash_is_twelve_digits(bytes: Seq<u8>)
    ensures
        shown_hash(bytes).len() == DIGITS,
        number::is_numeral(shown_hash(bytes), 16),
{
    number::law_padded_reads_back(hash(bytes) as nat, 16, 16);
    let d = number::padded(hash(bytes) as nat, 16, 16);
    assert forall|i: int| 0 <= i < DIGITS implies number::digit_value(
        #[trigger] shown_hash(bytes)[i],
    ) < 16 by {
        assert(number::digit_value(d[i]) < 16);
    }
}

/// What the programs hold, one behind the other.
pub open spec fn all_bytes(programs: Seq<Vec<u8>>) -> Seq<u8>
    decreases programs.len(),
{
    if programs.len() == 0 {
        Seq::empty()
    } else {
        all_bytes(programs.drop_last()) + programs.last()@
    }
}

/// The path of a package.
pub open spec fn store_path(bytes: Seq<u8>, name: Seq<char>, version: Seq<char>) -> Seq<char> {
    "/store/"@ + shown_hash(bytes) + "-"@ + name + "-"@ + version
}

/// The path of the package that holds the programs.
pub fn store_path_for_all(programs: &Vec<Vec<u8>>, name: &str, version: &str) -> (r: String)
    ensures
        r@ == store_path(all_bytes(programs@), name@, version@),
{
    let mut bytes: Vec<u8> = Vec::new();
    let mut i: usize = 0;
    while i < programs.len()
        invariant
            i <= programs.len(),
            bytes@ == all_bytes(programs@.take(i as int)),
        decreases programs.len() - i,
    {
        assert(programs@.take(i + 1).drop_last() =~= programs@.take(i as int));
        let ghost start = bytes@;
        let p = &programs[i];
        let mut k: usize = 0;
        assert(start + p@.take(0) =~= start);
        while k < p.len()
            invariant
                k <= p.len(),
                bytes@ == start + p@.take(k as int),
            decreases p.len() - k,
        {
            bytes.push(p[k]);
            k = k + 1;
            assert(start + p@.take(k as int) =~= (start + p@.take(k - 1)).push(p@[k - 1]));
        }
        assert(p@.take(k as int) =~= p@);
        i = i + 1;
    }
    assert(programs@.take(i as int) =~= programs@);
    let h = store_hash(bytes.as_slice());
    let mut s = String::from_str("/store/");
    s.append(h.as_str());
    s.append("-");
    s.append(name);
    s.append("-");
    s.append(version);
    s
}

/// Where a package's programs are staged below the root: its path without the leading slash, and
/// `bin`.
pub fn staged_dir(store: &str) -> (r: String)
    ensures
        r@ == paths::below(text::trim_start_char(store@, '/'), "bin"@),
{
    let c = text::chars_of(store);
    let s = text::string_of(text::trimmed_char(c.as_slice(), '/'));
    paths::join(s.as_str(), "bin")
}

/// The hash begins with one constant, and each byte is mixed in by exclusive or before the hash is
/// multiplied by the other, of which the low sixty-four bits are kept.
pub proof fn law_a_byte_is_mixed_in(bytes: Seq<u8>, b: u8)
    ensures
        hash(Seq::empty()) == 14695981039346656037,
        hash(bytes.push(b)) == ((hash(bytes) ^ (b as u64)) * 1099511628211) % 18446744073709551616,
{
    assert(bytes.push(b).drop_last() =~= bytes);
}

/// What is hashed of several programs is what they hold, in their order and nothing between.
pub proof fn law_programs_are_hashed_in_order(programs: Seq<Vec<u8>>, more: Seq<Vec<u8>>)
    ensures
        all_bytes(programs + more) == all_bytes(programs) + all_bytes(more),
        programs.len() == 1 ==> all_bytes(programs) == programs[0]@,
    decreases more.len(),
{
    reveal_with_fuel(all_bytes, 2);
    if programs.len() == 1 {
        assert(programs.drop_last() =~= Seq::empty());
        assert(all_bytes(programs) =~= programs[0]@);
    }
    if more.len() == 0 {
        assert(programs + more =~= programs);
        assert(all_bytes(programs) + all_bytes(more) =~= all_bytes(programs));
    } else {
        law_programs_are_hashed_in_order(programs, more.drop_last());
        assert((programs + more).drop_last() =~= programs + more.drop_last());
        assert((programs + more).last() == more.last());
        assert(all_bytes(programs + more) =~= all_bytes(programs) + all_bytes(more));
    }
}

/// A package's path holds, behind the store, the twelve digits of its hash, its name and its version.
pub proof fn law_a_package_lies_in_the_store(bytes: Seq<u8>, name: Seq<char>, version: Seq<char>)
    ensures
        ({
            let p = store_path(bytes, name, version);
            &&& p.len() == 7 + 12 + 1 + name.len() + 1 + version.len()
            &&& p.take(7) == "/store/"@
            &&& p.subrange(7, 19) == shown_hash(bytes)
            &&& p[19] == '-'
            &&& p.subrange(20, 20 + name.len() as int) == name
            &&& p[20 + name.len() as int] == '-'
            &&& p.skip(21 + name.len() as int) == version
        }),
{
    reveal_strlit("/store/");
    reveal_strlit("-");
    law_a_shown_hash_is_twelve_digits(bytes);
    let p = store_path(bytes, name, version);
    assert(p.take(7) =~= "/store/"@);
    assert(p.subrange(7, 19) =~= shown_hash(bytes));
    assert(p.subrange(20, 20 + name.len() as int) =~= name);
    assert(p.skip(21 + name.len() as int) =~= version);
}

} // verus!
